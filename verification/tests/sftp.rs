use sshdt::hostkey::{default_host_key_path, load_or_generate, load_or_generate_one, KeyStep};
use sshdt::paths::{find_file_name, find_parent, is_absolute, join_path, PathStyle};
use sshdt::sftp::{
    asked_path, io_to_status, normalize_lexical, ok_status, open_mode, read_reply, render,
    settable_mode, split_path, HandleEntry, IoFailure, Lookup, Probe, SftpSession, StatusCode,
};

fn jail(root: &str) -> SftpSession {
    SftpSession::new(PathStyle::Posix, Some(root.to_string()))
}

fn s(text: &str) -> Option<String> {
    Some(text.to_string())
}

/// What a path stands for, where `there` says what there is at a path.
fn find(
    fs: &SftpSession,
    path: &str,
    there: &dyn Fn(&str) -> Probe,
    itself: bool,
) -> Result<String, StatusCode> {
    let mut lookup = fs.look(path);
    loop {
        match lookup {
            Lookup::Look { walk, at } => {
                let probe = there(&at);
                lookup = fs.follow(walk, probe, itself);
            }
            Lookup::Done(result) => return result,
        }
    }
}

/// What a path stands for, where there is something at it that is at `existing` with links
/// followed.
fn find_at(fs: &SftpSession, path: &str, existing: &str) -> Result<String, StatusCode> {
    find(fs, path, &|_| Probe::There(existing.to_string()), false)
}

/// What a path stands for where there is nothing.
fn place(fs: &SftpSession, path: &str) -> Result<String, StatusCode> {
    find(fs, path, &|_| Probe::Nothing, false)
}

#[test]
fn sftp_jail_rejects_path_escape() {
    let fs = jail("/srv/jail");
    let there = |at: &str| Probe::There(at.to_string());
    let at = |path: &str| find(&fs, path, &there, false);
    assert_eq!(
        at("/inside.txt"),
        Ok("/srv/jail/inside.txt".to_string())
    );
    assert_eq!(at("/../secret.txt"), Err(StatusCode::PermissionDenied));
    assert_eq!(at("/../../etc/passwd"), Err(StatusCode::PermissionDenied));
    let escape = format!("/..{}/secret.txt", "/srv/outside");
    assert_eq!(at(&escape), Err(StatusCode::PermissionDenied));
    assert_eq!(
        find_at(&fs, "/../secret.txt", "/srv/jail"),
        Err(StatusCode::PermissionDenied)
    );
    assert_eq!(
        find_at(&fs, "/../../etc/passwd", "/srv/jail"),
        Err(StatusCode::PermissionDenied)
    );
    assert_eq!(
        find_at(&fs, &escape, "/srv/jail"),
        Err(StatusCode::PermissionDenied)
    );
}

#[test]
fn links_cannot_lead_out_of_the_jail() {
    let fs = jail("/srv/jail");
    assert_eq!(
        find_at(&fs, "link", "/etc/passwd"),
        Err(StatusCode::PermissionDenied)
    );
    assert_eq!(
        find_at(&fs, "link", "/srv/jail2/x"),
        Err(StatusCode::PermissionDenied)
    );
    assert_eq!(
        find_at(&fs, "link", "/srv/jail/x"),
        Ok("/srv/jail/x".to_string())
    );
}

/// The probe of a file system with the directories `/`, `/r`, `/r/d` and `/outside`, and links
/// in `/r`.
fn tree(at: &str) -> Probe {
    let link = |target: &str| Probe::Link {
        parent: "/r".to_string(),
        target: target.to_string(),
    };
    match at {
        "/" | "/r" | "/r/d" | "/outside" => Probe::There(at.to_string()),
        "/r/d/.." => Probe::There("/r".to_string()),
        "/r/.." => Probe::There("/".to_string()),
        "/r/in" => Probe::There("/r/d".to_string()),
        "/r/l" => Probe::There("/outside".to_string()),
        "/r/new" => link("d/later"),
        "/r/again" => link("new"),
        "/r/back" => link("d/../later"),
        "/r/broken" => link("gone/../later"),
        "/r/away" => link("/outside/later"),
        "/r/up" => link("../later"),
        "/r/circle" => link("circle"),
        "/r/through" => link("/closed/n"),
        "/r/closed/n" | "/closed/n" => Probe::Closed(IoFailure::PermissionDenied),
        "/r/odd" => Probe::Unknown(IoFailure::Other),
        _ => Probe::Nothing,
    }
}

#[test]
fn links_above_new_names_cannot_lead_out_of_the_jail() {
    let fs = jail("/r");
    let at = |path: &str| find(&fs, path, &tree, false);
    assert_eq!(at("/l/n"), Err(StatusCode::PermissionDenied));
    assert_eq!(at("/l/n/m"), Err(StatusCode::PermissionDenied));
    assert_eq!(at("/l"), Err(StatusCode::PermissionDenied));
    assert_eq!(at("/n"), Ok("/r/n".to_string()));
    assert_eq!(at("/d/n/m"), Ok("/r/d/n/m".to_string()));
    assert_eq!(at("/in/n"), Ok("/r/d/n".to_string()));
    assert_eq!(at("/in"), Ok("/r/d".to_string()));
    assert_eq!(at("/../x"), Err(StatusCode::PermissionDenied));
    let link = |path: &str| find(&fs, path, &tree, true);
    assert_eq!(link("/l/n"), Err(StatusCode::PermissionDenied));
    assert_eq!(link("/n"), Ok("/r/n".to_string()));
}

#[test]
fn links_to_nothing_are_followed() {
    let fs = jail("/r");
    let at = |path: &str| find(&fs, path, &tree, false);
    assert_eq!(at("/new"), Ok("/r/d/later".to_string()));
    assert_eq!(at("/new/n"), Ok("/r/d/later/n".to_string()));
    assert_eq!(at("/again"), Ok("/r/d/later".to_string()));
    assert_eq!(at("/back"), Ok("/r/later".to_string()));
    assert_eq!(at("/broken"), Err(StatusCode::NoSuchFile));
    assert_eq!(at("/away"), Err(StatusCode::PermissionDenied));
    assert_eq!(at("/away/n"), Err(StatusCode::PermissionDenied));
    assert_eq!(at("/up"), Err(StatusCode::PermissionDenied));
    assert_eq!(at("/circle"), Err(StatusCode::Failure));
    let link = |path: &str| find(&fs, path, &tree, true);
    assert_eq!(link("/new"), Ok("/r/new".to_string()));
    assert_eq!(link("/away"), Ok("/r/away".to_string()));
    assert_eq!(link("/circle"), Ok("/r/circle".to_string()));
    assert_eq!(link("/new/n"), Ok("/r/d/later/n".to_string()));
    assert_eq!(link("/away/n"), Err(StatusCode::PermissionDenied));
}

#[test]
fn requests_fail_at_what_cannot_be_looked_at() {
    let fs = jail("/r");
    let at = |path: &str| find(&fs, path, &tree, false);
    assert_eq!(at("/closed/n"), Ok("/r/closed/n".to_string()));
    assert_eq!(at("/through"), Err(StatusCode::PermissionDenied));
    assert_eq!(at("/odd"), Err(StatusCode::Failure));
    assert_eq!(at("/odd/n"), Err(StatusCode::Failure));
    let gone = |_: &str| Probe::Unknown(IoFailure::NotFound);
    assert_eq!(find(&fs, "/n", &gone, false), Err(StatusCode::NoSuchFile));
}

#[test]
fn without_the_jail_paths_keep_their_text() {
    let fs = jail("/r");
    assert_eq!(place(&fs, "/a/./b"), Ok("/r/a/b".to_string()));
    assert_eq!(place(&fs, "/"), Ok("/r".to_string()));
    assert_eq!(place(&fs, "/../x"), Err(StatusCode::PermissionDenied));
    let link = |at: &str| match at {
        "/r" => Probe::Link {
            parent: "/".to_string(),
            target: "gone".to_string(),
        },
        _ => Probe::Nothing,
    };
    assert_eq!(find(&fs, "/a", &link, false), Ok("/r/a".to_string()));
    assert_eq!(find(&fs, "/", &link, true), Ok("/r".to_string()));
}

fn normal(style: PathStyle, path: &str) -> String {
    render(style, &normalize_lexical(style, split_path(style, path)))
}

#[test]
fn normalizing_again_gives_the_same() {
    let posix = |path: &str| normal(PathStyle::Posix, path);
    for (path, once) in [
        ("/a/b/c", "/a/b/c"),
        ("a/b", "a/b"),
        ("/a/./b/../c", "/a/c"),
        ("/../a", "/a"),
        ("/../../..", "/"),
        ("a/../..", ""),
    ] {
        assert_eq!(posix(path), once);
        assert_eq!(posix(once), once);
    }
    let windows = |path: &str| normal(PathStyle::Windows, path);
    assert_eq!(windows(r"C:\a\.\..\b"), r"C:\b");
    assert_eq!(windows(r"C:\b"), r"C:\b");
}

#[test]
fn drives_and_shares_are_known_in_any_writing() {
    let fs = SftpSession::new(PathStyle::Windows, s(r"\\?\C:\jail"));
    assert_eq!(
        find_at(&fs, "a", r"\\?\c:\jail\a"),
        Ok(r"\\?\c:\jail\a".to_string())
    );
    assert_eq!(
        find_at(&fs, "a", r"\\?\D:\jail\a"),
        Err(StatusCode::PermissionDenied)
    );
    assert_eq!(
        find_at(&fs, "a", r"\\?\C:\JAIL\a"),
        Err(StatusCode::PermissionDenied)
    );
    let share = SftpSession::new(PathStyle::Windows, s(r"\\?\UNC\machine\share"));
    assert_eq!(
        place(&share, "/../a"),
        Ok(r"\\?\UNC\machine\share\a".to_string())
    );
    assert_eq!(
        find_at(&share, "a", r"\\?\UNC\machine\other\a"),
        Err(StatusCode::PermissionDenied)
    );
}

#[test]
fn paths_are_mapped_into_the_jail() {
    let fs = jail("/srv/jail");
    let at = |p: &str| place(&fs, p);
    assert_eq!(at("/etc/passwd"), Ok("/srv/jail/etc/passwd".to_string()));
    assert_eq!(at("a//b/./c/../d"), Ok("/srv/jail/a/b/d".to_string()));
    assert_eq!(at(""), Ok("/srv/jail".to_string()));
    assert_eq!(at("."), Ok("/srv/jail".to_string()));
    assert_eq!(at("../jail/x"), Ok("/srv/jail/x".to_string()));
    assert_eq!(at("../jailbreak"), Err(StatusCode::PermissionDenied));
    assert_eq!(at("a/../.."), Err(StatusCode::PermissionDenied));
    let free = SftpSession::new(PathStyle::Posix, None);
    assert_eq!(place(&free, "../x"), Ok("../x".to_string()));
    assert_eq!(find_at(&free, "a", "/b"), Ok("a".to_string()));
}

#[test]
fn drives_cannot_lead_out_of_the_jail() {
    let fs = SftpSession::new(PathStyle::Windows, s(r"C:\jail"));
    assert_eq!(place(&fs, "/a/b"), Ok(r"C:\jail\a\b".to_string()));
    assert_eq!(place(&fs, "D:/x"), Err(StatusCode::PermissionDenied));
    assert_eq!(place(&fs, "a/D:/x"), Err(StatusCode::PermissionDenied));
    assert_eq!(place(&fs, r"..\x"), Err(StatusCode::PermissionDenied));
    assert_eq!(place(&fs, r"\\host\share\x"), Err(StatusCode::PermissionDenied));
}

#[test]
fn clients_see_the_jail_as_the_root() {
    let fs = jail("/srv/jail");
    assert_eq!(fs.to_client_path("/srv/jail"), "/");
    assert_eq!(fs.to_client_path("/srv/jail/a/b"), "/a/b");
    assert_eq!(fs.to_client_path("/srv/jail//a//b/"), "/a//b");
    assert_eq!(fs.to_client_path("target"), "/target");
    assert_eq!(fs.to_client_path("."), "/");
    let free = SftpSession::new(PathStyle::Posix, None);
    assert_eq!(free.to_client_path("/x"), "/x");
}

#[test]
fn paths_are_normalized_by_their_text() {
    let n = |p: &str| {
        render(
            PathStyle::Posix,
            &normalize_lexical(PathStyle::Posix, split_path(PathStyle::Posix, p)),
        )
    };
    for p in [
        "/a/b/../c", "/..", "a/../../b", "./a/.", "/", "", "a//b///c/", "../x", "/a/./b",
    ] {
        let mut usual = std::path::PathBuf::new();
        for c in std::path::Path::new(p).components() {
            match c {
                std::path::Component::ParentDir => {
                    usual.pop();
                }
                std::path::Component::CurDir => {}
                other => usual.push(other.as_os_str()),
            }
        }
        assert_eq!(n(p), usual.to_string_lossy(), "{}", p);
    }
}

#[test]
fn handles_are_given_out_once() {
    let mut fs = jail("/j");
    let (a, name_a) = fs.alloc_handle(HandleEntry::File);
    let (b, name_b) = fs.alloc_handle(HandleEntry::Dir {
        entries: 250,
        offset: 0,
    });
    assert_eq!((name_a.as_str(), name_b.as_str()), ("h0", "h1"));
    assert_eq!(fs.file("h0"), Ok(a));
    assert_eq!(fs.file("h1"), Err(StatusCode::Failure));
    assert_eq!(fs.file("h00"), Err(StatusCode::Failure));
    assert_eq!(fs.file("x"), Err(StatusCode::Failure));
    assert_eq!(fs.readdir("h1"), Ok((b, 0, 100)));
    assert_eq!(fs.readdir("h1"), Ok((b, 100, 200)));
    assert_eq!(fs.readdir("h1"), Ok((b, 200, 250)));
    assert_eq!(fs.readdir("h1"), Err(StatusCode::Eof));
    assert_eq!(fs.readdir("h0"), Err(StatusCode::Failure));
    assert_eq!(fs.close("h0"), Some(a));
    assert_eq!(fs.close("h0"), None);
    assert_eq!(fs.lookup("h0"), None);
    assert_eq!(fs.alloc_handle(HandleEntry::File).1, "h2");
}

#[test]
fn answers_follow_what_happened() {
    let ok = ok_status(3);
    assert_eq!((ok.id, ok.status_code), (3, StatusCode::Done));
    assert_eq!((ok.error_message.as_str(), ok.language_tag.as_str()), ("Ok", "en-US"));
    assert_eq!(io_to_status(IoFailure::NotFound), StatusCode::NoSuchFile);
    assert_eq!(
        io_to_status(IoFailure::PermissionDenied),
        StatusCode::PermissionDenied
    );
    assert_eq!(io_to_status(IoFailure::Other), StatusCode::Failure);
    assert_eq!(read_reply(0), Err(StatusCode::Eof));
    assert_eq!(read_reply(5), Ok(5));
    assert!(open_mode(true, false).create && !open_mode(true, false).read);
    assert!(open_mode(false, false).read && !open_mode(false, false).create);
    assert_eq!(settable_mode(0o100644), 0o644);
    assert_eq!(asked_path(""), ".");
    assert_eq!(asked_path("/x"), "/x");
}

#[test]
fn paths_are_taken_apart_as_usual() {
    for p in [
        "/a/b", "a", "", "/", "a/b/", "a/.", "a/..", "..", ".", "/a", "a/./b", "./x", "//a//",
    ] {
        let usual = std::path::Path::new(p);
        assert_eq!(
            find_file_name(PathStyle::Posix, p),
            usual
                .file_name()
                .map(|n| n.to_string_lossy().into_owned()),
            "{}",
            p
        );
        assert_eq!(
            find_parent(PathStyle::Posix, p),
            usual.parent().map(|n| n.to_string_lossy().into_owned()),
            "{}",
            p
        );
        assert_eq!(is_absolute(PathStyle::Posix, p), usual.is_absolute());
        for q in ["x", "/y", ""] {
            assert_eq!(
                join_path(PathStyle::Posix, p, q),
                usual.join(q).to_string_lossy()
            );
        }
    }
    assert_eq!(join_path(PathStyle::Windows, r"C:\a", r"\b"), r"C:\b");
    assert_eq!(join_path(PathStyle::Windows, r"\\m\s\a", r"\b"), r"\\m\s\b");
    assert_eq!(join_path(PathStyle::Windows, "C:", "a"), "C:a");
    assert_eq!(join_path(PathStyle::Windows, r"C:\a", "D:b"), "D:b");
    assert!(is_absolute(PathStyle::Windows, r"\\m\s"));
    assert!(!is_absolute(PathStyle::Windows, r"\a"));
    assert!(!is_absolute(PathStyle::Windows, "C:a"));
}

#[test]
fn host_keys_are_kept_where_they_are_found_again() {
    assert_eq!(
        default_host_key_path(PathStyle::Posix, s("/home/me")).unwrap(),
        "/home/me/.sshdt/host_ed25519"
    );
    assert_eq!(
        default_host_key_path(PathStyle::Posix, None)
            .err()
            .unwrap()
            .to_string(),
        "failed to generate host key: could not determine the home directory"
    );
    assert_eq!(
        load_or_generate(PathStyle::Posix, &vec!["k".to_string()], None).unwrap(),
        ["k"]
    );
    assert_eq!(
        load_or_generate(PathStyle::Posix, &vec![], s("/h")).unwrap(),
        ["/h/.sshdt/host_ed25519"]
    );
    assert!(matches!(
        load_or_generate_one(PathStyle::Posix, "/h/.sshdt/k", true),
        KeyStep::Load
    ));
    assert!(matches!(
        load_or_generate_one(PathStyle::Posix, "/h/.sshdt/k", false),
        KeyStep::Generate { directory: Some(d) } if d == "/h/.sshdt"
    ));
    assert!(matches!(
        load_or_generate_one(PathStyle::Posix, "k", false),
        KeyStep::Generate { directory: None }
    ));
}
