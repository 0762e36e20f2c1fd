use mcscan::targets::{is_white_space, parse_targets, server_address, Target};

fn target(host: &str, port: u16) -> Target {
    Target { host: host.to_string(), port }
}

/// The list as std's own functions read it.
fn expected(input: &str) -> Vec<Target> {
    input
        .lines()
        .map(|s| s.trim())
        .filter(|s| !s.is_empty() && !s.starts_with('#'))
        .map(|line| match line.split_once(':') {
            Some((h, p)) => target(h, p.parse().unwrap_or(25565)),
            None => target(line, 25565),
        })
        .collect()
}

#[test]
fn list_of_servers() {
    assert_eq!(
        parse_targets("1.2.3.4\n# comment\n\n  5.6.7.8:25566 \n   #x\n9.9.9.9:"),
        vec![target("1.2.3.4", 25565), target("5.6.7.8", 25566), target("9.9.9.9", 25565)]
    );
}

#[test]
fn list_of_nothing() {
    assert_eq!(parse_targets(""), vec![]);
    assert_eq!(parse_targets("\n \n\t\r\n#"), vec![]);
}

#[test]
fn list_reads_as_std_reads_it() {
    for input in [
        "a\r\nb\rc\r\n\r\nd",
        "host:80\nhost:+80\nhost:-80\nhost:080\nhost: 80\nhost:80 \nhost:",
        "host:65535\nhost:65536\nhost:99999999999999999999\nhost:00000000000000000001",
        "host:+\nhost:++1\nhost:1+\nhost:0x10\nhost:\u{665}",
        "::1\n[::1]:25565\na:b:c\n:5",
        "\u{3000}wide\u{2003}\n\u{feff}bom\n\u{200b}zero width",
        "host :1\n#\n##\na#b\n",
        "\u{85}x\u{a0}\n",
    ] {
        assert_eq!(parse_targets(input), expected(input), "{:?}", input);
    }
}

#[test]
fn white_space_is_that_of_std() {
    for n in 0..=0x10ffffu32 {
        if let Some(c) = char::from_u32(n) {
            assert_eq!(is_white_space(c), c.is_whitespace(), "{:x}", n);
        }
    }
}

#[test]
fn lists_can_be_put_below_each_other() {
    let a = "x:1\n#y\nz";
    let b = "\nq:2";
    let mut both = parse_targets(a);
    both.extend(parse_targets(b));
    assert_eq!(parse_targets(&format!("{}\n{}", a, b)), both);
}

#[test]
fn address_is_host_and_port() {
    assert_eq!(server_address("1.2.3.4", 25565), "1.2.3.4:25565");
    assert_eq!(server_address("h", 0), "h:0");
    assert_eq!(server_address("", 65535), ":65535");
}

#[test]
fn address_round_trip() {
    for port in [0, 9, 10, 99, 100, 25565, 65535] {
        let address = server_address("10.1.2.3", port);
        assert_eq!(parse_targets(&address), vec![target("10.1.2.3", port)]);
    }
}
