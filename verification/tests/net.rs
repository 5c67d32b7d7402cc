use sshdt::net::{parse_ip, parse_socket, IpAddr, SocketAddr};

#[test]
fn addresses_are_read_and_written_as_usual() {
    for (text, written) in [
        ("0.0.0.0", "0.0.0.0"),
        ("127.0.0.1", "127.0.0.1"),
        ("255.255.255.255", "255.255.255.255"),
        ("::", "::"),
        ("::1", "::1"),
        ("1::", "1::"),
        ("FE80:0::1:2", "fe80::1:2"),
        ("1:2:3:4:5:6:7:8", "1:2:3:4:5:6:7:8"),
        ("1:0:0:2:0:0:0:3", "1:0:0:2::3"),
        ("1:0:0:2:3:0:0:4", "1::2:3:0:0:4"),
        ("1:0:3:4:5:6:7:8", "1:0:3:4:5:6:7:8"),
        ("1::3:4:5:6:7:8", "1:0:3:4:5:6:7:8"),
        ("::ffff:10.0.0.1", "::ffff:10.0.0.1"),
        ("::ffff:a00:1", "::ffff:10.0.0.1"),
        ("::10.0.0.1", "::a00:1"),
        ("2001:0db8::", "2001:db8::"),
    ] {
        let ip = parse_ip(text).unwrap();
        assert_eq!(ip.to_string(), written);
        assert_eq!(parse_ip(ip.to_string().as_str()), Some(ip));
    }
}

#[test]
fn addresses_that_are_none_are_refused() {
    for text in [
        "", "1.2.3", "1.2.3.4.5", "01.2.3.4", "256.1.1.1", "1.2.3.4 ", "+1.2.3.4", ":::", "1::2::3",
        "12345::", "1:2:3:4:5:6:7", "1:2:3:4:5:6:7:8:9", "1:2:3:4:5:6:7::8:9", "::1%eth0", "::1.2.3",
        "1:2:3:4:5:6:7:1.2.3.4", "1.2.3.4::", "::g", "1:2:3:4:5:6:7:8::",
    ] {
        assert_eq!(parse_ip(text), None, "{}", text);
    }
}

#[test]
fn socket_addresses_are_read_and_written_as_usual() {
    for (text, written) in [
        ("127.0.0.1:2223", "127.0.0.1:2223"),
        ("127.0.0.1:00080", "127.0.0.1:80"),
        ("[::1]:2300", "[::1]:2300"),
        ("[fe80::1%3]:1", "[fe80::1%3]:1"),
        ("[::ffff:1.2.3.4]:65535", "[::ffff:1.2.3.4]:65535"),
    ] {
        assert_eq!(parse_socket(text).unwrap().to_string(), written);
    }
    for text in [
        "127.0.0.1", "127.0.0.1:", "127.0.0.1:65536", "::1:22", "[::1]", "[::1]:", "[127.0.0.1]:1",
        "[::1]22", "[::1%]:1", "127.0.0.1:+1",
    ] {
        assert_eq!(parse_socket(text), None, "{}", text);
    }
}

#[test]
fn local_addresses_are_known() {
    assert!(IpAddr::V4(127, 9, 9, 9).is_loopback());
    assert!(!IpAddr::V4(128, 0, 0, 1).is_loopback());
    assert!(IpAddr::V6(0, 0, 0, 0, 0, 0, 0, 1).is_loopback());
    assert!(!IpAddr::V6(0, 0, 0, 0, 0, 0, 0, 0).is_loopback());
    assert!(IpAddr::V6(0, 0, 0, 0, 0, 0, 0, 0).is_unspecified());
    assert!(IpAddr::V4(0, 0, 0, 0).is_unspecified());
    assert!(!IpAddr::V4(0, 0, 0, 1).is_unspecified());
    let a = SocketAddr {
        ip: IpAddr::V6(0, 0, 0, 0, 0, 0, 0, 1),
        port: 22,
        scope: 0,
    };
    assert_eq!(a.to_string(), "[::1]:22");
}
