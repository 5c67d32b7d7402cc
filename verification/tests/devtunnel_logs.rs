use sshdt::devtunnel::logs::{
    date, files_to_prune, latest_log, log_prefix, resume_offset, sanitize, state_dir, Log,
};
use sshdt::devtunnel::process::{
    exit_event, guard_step, guardian_code, tunnel_program, GuardStep, LineReader, ProcessEvent,
};
use sshdt::order::{sort_texts, stands_before};
use sshdt::paths::PathStyle;

fn v(texts: &[&str]) -> Vec<String> {
    texts.iter().map(|t| t.to_string()).collect()
}

#[test]
fn dates_and_secrets() {
    assert_eq!(date(0), "1970-01-01");
    assert_eq!(
        sanitize("Authorization: Bearer abc"),
        "[credential-bearing output omitted]"
    );
    assert_eq!(
        sanitize("visit https://a.example/?key=private"),
        "visit [URL omitted]"
    );
    assert_eq!(sanitize("Hosting port: 2222"), "Hosting port: 2222");
}

#[test]
fn dates_follow_the_calendar() {
    assert_eq!(date(365), "1971-01-01");
    assert_eq!(date(11_016), "2000-02-29");
    assert_eq!(date(2_932_896), "9999-12-31");
}

#[test]
fn logged_text_is_one_short_line() {
    assert_eq!(sanitize("  a\u{7}b \t c\n"), "ab c");
    assert_eq!(sanitize(&"x".repeat(5000)).len(), 2048);
    let many = "y ".repeat(9000);
    assert_eq!(sanitize(&many).len(), 8192);
    assert_eq!(sanitize("my PassWord is x"), "[credential-bearing output omitted]");
    assert_eq!(sanitize("eyJhbGciOi"), "[credential-bearing output omitted]");
}

#[test]
fn entries_go_to_the_file_of_the_day() {
    let log = Log::new("client").unwrap();
    let e = log.write(86_400 + 5, "connect", "stdout", "hello  world");
    assert_eq!(e.lock, "devtunnel-client.lock");
    assert_eq!(e.file, "devtunnel-client.1970-01-02.log");
    assert_eq!(e.line, "86405 [connect] [stdout] hello world\n");
    assert_eq!(log_prefix("host").unwrap(), "devtunnel");
    assert_eq!(Log::new("other").unwrap_err(), "unknown tunnel log role");
}

#[test]
fn seven_files_are_kept() {
    let names = v(&[
        "devtunnel.2024-01-09.log",
        "devtunnel.2024-01-01.log",
        "devtunnel.2024-01-03.log",
        "devtunnel.2024-01-02.log",
        "devtunnel-client.2020-01-01.log",
        "devtunnel.lock",
        "devtunnel.2024-01-04.log",
        "devtunnel.2024-01-05.log",
        "devtunnel.2024-01-06.log",
        "devtunnel.2024-01-07.log",
        "devtunnel.2024-01-08.log",
    ]);
    assert_eq!(
        files_to_prune(&names, "devtunnel"),
        ["devtunnel.2024-01-01.log", "devtunnel.2024-01-02.log"]
    );
    assert!(files_to_prune(&names, "devtunnel-client").is_empty());
    assert_eq!(
        latest_log(&names, "devtunnel").as_deref(),
        Some("devtunnel.2024-01-09.log")
    );
    assert_eq!(latest_log(&names, "x"), None);
}

#[test]
fn reading_goes_on_where_it_stopped() {
    let a = Some("a".to_string());
    assert_eq!(resume_offset(&None, 9, "a", 20), 0);
    assert_eq!(resume_offset(&a, 9, "a", 20), 9);
    assert_eq!(resume_offset(&a, 9, "a", 8), 0);
    assert_eq!(resume_offset(&a, 9, "b", 20), 0);
    let s = |t: &str| Some(t.to_string());
    assert_eq!(state_dir(PathStyle::Posix, s("/x"), s("/h")), "/x");
    assert_eq!(state_dir(PathStyle::Posix, None, s("/h")), "/h/.sshdt");
    assert_eq!(state_dir(PathStyle::Posix, None, None), "./.sshdt");
}

#[test]
fn texts_are_sorted_like_strings() {
    let mut usual = v(&["b", "", "ab", "a", "é", "Z", "a"]);
    let sorted = sort_texts(usual.clone());
    usual.sort();
    assert_eq!(sorted, usual);
    assert!(stands_before("a", "ab") && !stands_before("b", "ab") && !stands_before("a", "a"));
}

fn read_all(chunks: &[&[u8]]) -> Vec<String> {
    let mut reader = LineReader::new();
    let mut out = Vec::new();
    for c in chunks {
        out.extend(reader.feed(c));
    }
    out.extend(reader.finish());
    out
}

#[test]
fn both_streams_drain_when_each_exceeds_pipe_capacity() {
    let stdout = "stdout line\n".repeat(10000).into_bytes();
    let stderr = "stderr line\n".repeat(10000).into_bytes();
    let mut readers = [LineReader::new(), LineReader::new()];
    let names = ["stdout", "stderr"];
    let mut events = Vec::new();
    for (a, b) in stdout.chunks(4096).zip(stderr.chunks(4096)) {
        for (i, chunk) in [a, b].into_iter().enumerate() {
            for line in readers[i].feed(chunk) {
                events.push(ProcessEvent::Line {
                    stream: names[i],
                    line,
                });
            }
        }
    }
    for (i, reader) in readers.into_iter().enumerate() {
        if let Some(line) = reader.finish() {
            events.push(ProcessEvent::Line {
                stream: names[i],
                line,
            });
        }
    }
    let mut counts = [0; 2];
    for event in events {
        match event {
            ProcessEvent::Line {
                stream: "stdout",
                line,
            } => {
                assert_eq!(line, "stdout line");
                counts[0] += 1;
            }
            ProcessEvent::Line {
                stream: "stderr",
                line,
            } => {
                assert_eq!(line, "stderr line");
                counts[1] += 1;
            }
            _ => panic!("unexpected output event"),
        }
    }
    assert_eq!(counts, [10000, 10000]);
}

#[test]
fn oversized_lines_are_bounded() {
    let data = vec![b'x'; 100000];
    assert_eq!(read_all(&[&data]), ["[oversized output line omitted]"]);
    let mut ended = data.clone();
    ended.extend(b"\nnext\n");
    assert_eq!(
        read_all(&[&ended]),
        ["[oversized output line omitted]", "next"]
    );
    let exact = vec![b'x'; 65536];
    assert_eq!(read_all(&[&exact])[0].len(), 65536);
}

#[test]
fn lines_do_not_depend_on_chunks() {
    let data = b"a\r\r\n\nb\xc3\xa9\xff\nlast\r";
    let whole = read_all(&[data]);
    assert_eq!(whole, ["a", "", "b\u{e9}\u{fffd}", "last\r"]);
    for cut in 0..data.len() {
        assert_eq!(read_all(&[&data[..cut], &data[cut..]]), whole);
    }
    assert!(read_all(&[b""]).is_empty());
}

#[test]
fn processes_end_in_known_ways() {
    assert!(matches!(
        exit_event(Some((true, Some(0)))),
        ProcessEvent::Exited {
            success: true,
            code: Some(0)
        }
    ));
    assert!(matches!(
        exit_event(None),
        ProcessEvent::Exited {
            success: false,
            code: None
        }
    ));
    assert_eq!(guardian_code(Some(3)), 3);
    assert_eq!(guardian_code(None), 1);
    assert_eq!(guard_step(false, true, false), GuardStep::Wait);
    assert_eq!(guard_step(true, true, false), GuardStep::EndGroup);
    assert_eq!(guard_step(false, false, false), GuardStep::EndGroup);
    assert_eq!(guard_step(false, true, true), GuardStep::EndGroup);
    let s = |t: &str| Some(t.to_string());
    assert_eq!(tunnel_program(s("a"), s("b")), "a");
    assert_eq!(tunnel_program(None, s("b")), "b");
    assert_eq!(tunnel_program(None, None), "devtunnel");
}

#[test]
fn addresses_and_secrets_are_not_logged() {
    assert_eq!(
        sanitize("see\thttps://a/b?c=d for\nmore"),
        "see [URL omitted] for more"
    );
    for text in ["my Token 1", "PASSWORD=x", "a secret://b", "eyJhbGci"] {
        assert_eq!(sanitize(text), "[credential-bearing output omitted]");
    }
}
