use cyberkit::config::{load_rules, rules_from_content};
use cyberkit::engine::IdsEngine;
use cyberkit::frame::{FrameView, Ipv4Address, NextProto};
use cyberkit::rules::{default_rules, Protocol};

#[test]
fn load_fallback_is_fixed() {
    let first = rules_from_content(None);
    let second = rules_from_content(None);
    assert_eq!(first, second);
    assert_eq!(first.len(), 3);
    assert_eq!(first[0].name, "Tentativa de Acesso a Admin");
    assert_eq!(first[0].protocol, Protocol::Tcp);
    assert_eq!(first[0].pattern.as_deref(), Some("admin"));
    assert_eq!(first[1].pattern.as_deref(), Some("UNION SELECT"));
    assert_eq!(first[2].pattern.as_deref(), Some("/bin/sh"));
    assert_eq!(first, default_rules());
}

#[test]
fn valid_rule_file_is_parsed() {
    let json = r#"[
        {"name": "Admin", "protocol": "tcp", "dst_port": 80, "pattern": "admin"},
        {"name": "AnyUdp", "protocol": "udp", "src_ip": "1.2.3.4"}
    ]"#;
    let rules = rules_from_content(Some(json));
    assert_eq!(rules.len(), 2);
    assert_eq!(rules[0].name, "Admin");
    assert_eq!(rules[0].protocol, Protocol::Tcp);
    assert_eq!(rules[0].dst_port, Some(80));
    assert_eq!(rules[0].pattern.as_deref(), Some("admin"));
    assert_eq!(rules[1].protocol, Protocol::Udp);
    assert_eq!(rules[1].src_ip.as_deref(), Some("1.2.3.4"));
    assert_eq!(rules[1].dst_port, None);
    assert_eq!(rules[1].pattern, None);
}

#[test]
fn malformed_file_falls_back_to_defaults() {
    assert_eq!(rules_from_content(Some("not json")), default_rules());
    assert_eq!(rules_from_content(Some("{\"a\": 1}")), default_rules());
    // all-or-nothing: one bad rule rejects the whole file
    let one_bad = r#"[
        {"name": "Ok", "protocol": "tcp"},
        {"name": "Bad", "protocol": "icmp"}
    ]"#;
    assert_eq!(rules_from_content(Some(one_bad)), default_rules());
    let port_out_of_range = r#"[{"name": "P", "protocol": "tcp", "dst_port": 70000}]"#;
    assert_eq!(rules_from_content(Some(port_out_of_range)), default_rules());
    let missing_name = r#"[{"protocol": "tcp"}]"#;
    assert_eq!(rules_from_content(Some(missing_name)), default_rules());
}

#[test]
fn empty_rule_file_gives_empty_engine() {
    let rules = rules_from_content(Some("[]"));
    assert_eq!(rules.len(), 0);
    let engine = IdsEngine::new(rules).unwrap();
    let frame = FrameView {
        src: Ipv4Address { a: 10, b: 0, c: 0, d: 5 },
        proto: NextProto::Tcp,
        payload: b"admin UNION SELECT /bin/sh".to_vec(),
    };
    assert!(engine.inspect(&frame).is_none());
}

#[test]
fn load_rules_builds_engine_from_defaults() {
    let engine = load_rules(None).unwrap();
    let frame = FrameView {
        src: Ipv4Address { a: 172, b: 16, c: 0, d: 9 },
        proto: NextProto::Tcp,
        payload: {
            let mut p = vec![0u8; 20];
            p[13] = 0x18;
            p.extend_from_slice(b"cat /etc/passwd; /bin/sh -i");
            p
        },
    };
    let alert = engine.inspect(&frame).unwrap();
    assert_eq!(alert.rule_name, "Detectado Shellcode/Bin/Sh");
    assert_eq!(alert.source_ip, "172.16.0.9");
}

#[test]
fn non_object_element_rejects_the_file() {
    assert_eq!(rules_from_content(Some(r#"[{"name": "A", "protocol": "tcp"}, 7]"#)), default_rules());
}

#[test]
fn unknown_keys_are_ignored() {
    let json = r#"[{"name": "A", "protocol": "tcp", "note": {"nested": true}}]"#;
    let rules = rules_from_content(Some(json));
    assert_eq!(rules.len(), 1);
    assert_eq!(rules[0].name, "A");
}
