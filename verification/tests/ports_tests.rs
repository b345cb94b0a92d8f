use cyberkit::ports::{clean_banner, parse_port_list, parse_ports, parse_u16, trim_str};

#[test]
fn parse_u16_accepts_plain_numbers() {
    assert_eq!(parse_u16("80"), Some(80));
    assert_eq!(parse_u16("0"), Some(0));
    assert_eq!(parse_u16("65535"), Some(65535));
    assert_eq!(parse_u16("+443"), Some(443));
    assert_eq!(parse_u16("007"), Some(7));
}

#[test]
fn parse_u16_rejects_everything_else() {
    assert_eq!(parse_u16(""), None);
    assert_eq!(parse_u16("+"), None);
    assert_eq!(parse_u16("65536"), None);
    assert_eq!(parse_u16("99999"), None);
    assert_eq!(parse_u16("-1"), None);
    assert_eq!(parse_u16("80a"), None);
    assert_eq!(parse_u16(" 80"), None);
}

#[test]
fn port_lists_are_split_and_trimmed() {
    assert_eq!(parse_port_list("80"), vec![80]);
    assert_eq!(parse_port_list("21, 22 ,443"), vec![21, 22, 443]);
    assert_eq!(parse_port_list("80,x,443,70000"), vec![80, 443]);
    assert_eq!(parse_port_list(""), Vec::<u16>::new());
    assert_eq!(parse_port_list("80,"), vec![80]);
}

#[test]
fn default_port_sets() {
    let tcp = parse_ports(None, false);
    assert_eq!(
        tcp,
        vec![21, 22, 23, 25, 53, 80, 110, 135, 139, 443, 445, 3306, 3389, 8080]
    );
    let udp = parse_ports(None, true);
    assert_eq!(
        udp,
        vec![53, 67, 68, 69, 123, 161, 162, 500, 514, 520, 623, 1900, 5353]
    );
    let given = parse_ports(Some("8080, 8443"), true);
    assert_eq!(given, vec![8080, 8443]);
}

#[test]
fn trimming_strips_surrounding_whitespace() {
    assert_eq!(trim_str("  80\t"), "80");
    assert_eq!(trim_str("\r\n"), "");
    assert_eq!(trim_str("a b"), "a b");
}

#[test]
fn banners_are_flattened() {
    assert_eq!(clean_banner("SSH-2.0-OpenSSH\r\n"), "SSH-2.0-OpenSSH");
    assert_eq!(clean_banner("  220 mail\r\nready  "), "220 mail  ready");
}
