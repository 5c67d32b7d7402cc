use sshdt::split_command_line;
use sshdt::util::current_os_user;

#[test]
fn splits_simple() {
    assert_eq!(split_command_line("/bin/sh"), vec!["/bin/sh"]);
    assert_eq!(
        split_command_line("rmux new-session -A -s main"),
        vec!["rmux", "new-session", "-A", "-s", "main"]
    );
}

#[test]
fn handles_quotes() {
    assert_eq!(
        split_command_line(r#"sh -c "echo hi there""#),
        vec!["sh", "-c", "echo hi there"]
    );
    assert_eq!(split_command_line("'a b' c"), vec!["a b", "c"]);
}

#[test]
fn empty_is_empty() {
    assert!(split_command_line("   ").is_empty());
}

#[test]
fn quotes_and_backslashes_keep_characters() {
    assert_eq!(split_command_line(r"a\ b c\"), vec!["a b", "c"]);
    assert_eq!(split_command_line(r"'a\b'"), vec![r"a\b"]);
    assert_eq!(split_command_line(r#""a\"b""#), vec!["a\"b"]);
    assert_eq!(split_command_line("\"it's\" x''y ''"), vec!["it's", "xy", ""]);
    assert_eq!(split_command_line("a\u{3000}b"), vec!["a", "b"]);
}

#[test]
fn first_name_that_is_set_is_the_user() {
    let s = |x: &str| Some(x.to_string());
    assert_eq!(current_os_user(s("a"), s("b"), s("c")), s("a"));
    assert_eq!(current_os_user(s(""), s("b"), s("c")), s("b"));
    assert_eq!(current_os_user(None, s(""), s("c")), s("c"));
    assert_eq!(current_os_user(None, None, s("")), None);
}

#[test]
fn white_space_parts_a_line_into_lines() {
    for (a, b) in [("a 'b c'", " d"), ("x\\ y", "\"z \""), ("", "a"), ("a", "'b")] {
        let whole = split_command_line(&format!("{} {}", a, b));
        let mut parts = split_command_line(a);
        parts.extend(split_command_line(b));
        assert_eq!(whole, parts);
    }
    assert_eq!(
        split_command_line("a 'b c'  d"),
        vec!["a".to_string(), "b c".to_string(), "d".to_string()]
    );
}
