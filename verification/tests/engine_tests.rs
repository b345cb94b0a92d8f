use cyberkit::engine::IdsEngine;
use cyberkit::frame::{FrameView, Ipv4Address, NextProto};
use cyberkit::rules::{IdsRule, Protocol};

fn tcp_payload(dst_port: u16, text: &str) -> Vec<u8> {
    // a 20-byte TCP header followed by the application text
    let mut p = vec![0u8; 20];
    p[0] = 0x04; // source port 1234
    p[1] = 0xd2;
    p[2] = (dst_port >> 8) as u8;
    p[3] = (dst_port & 0xff) as u8;
    p[12] = 0x50; // data offset 5 words
    p[13] = 0x18; // PSH|ACK
    p.extend_from_slice(text.as_bytes());
    p
}

fn admin_rule() -> IdsRule {
    IdsRule {
        name: "Admin".to_string(),
        protocol: Protocol::Tcp,
        src_ip: None,
        dst_port: None,
        pattern: Some("admin".to_string()),
    }
}

#[test]
fn scenario_tcp_pattern_alerts() {
    let engine = IdsEngine::new(vec![admin_rule()]).unwrap();
    let frame = FrameView {
        src: Ipv4Address { a: 10, b: 0, c: 0, d: 5 },
        proto: NextProto::Tcp,
        payload: tcp_payload(80, "GET /admin HTTP/1.1"),
    };
    let alert = engine.inspect(&frame).expect("the pattern should alert");
    assert_eq!(alert.rule_name, "Admin");
    assert_eq!(alert.source_ip, "10.0.0.5");
    assert!(alert.payload_preview.contains("admin"));
}

#[test]
fn scenario_udp_frame_rejected() {
    let engine = IdsEngine::new(vec![admin_rule()]).unwrap();
    let frame = FrameView {
        src: Ipv4Address { a: 10, b: 0, c: 0, d: 5 },
        proto: NextProto::Udp,
        payload: tcp_payload(80, "GET /admin HTTP/1.1"),
    };
    assert!(engine.inspect(&frame).is_none());
}

#[test]
fn scenario_port_filter() {
    let mut rule = admin_rule();
    rule.dst_port = Some(80);
    let engine = IdsEngine::new(vec![rule]).unwrap();
    let to_8080 = FrameView {
        src: Ipv4Address { a: 10, b: 0, c: 0, d: 5 },
        proto: NextProto::Tcp,
        payload: tcp_payload(8080, "GET /admin HTTP/1.1"),
    };
    assert!(engine.inspect(&to_8080).is_none());
    let to_80 = FrameView {
        src: Ipv4Address { a: 10, b: 0, c: 0, d: 5 },
        proto: NextProto::Tcp,
        payload: tcp_payload(80, "GET /admin HTTP/1.1"),
    };
    assert!(engine.inspect(&to_80).is_some());
}

#[test]
fn scenario_src_ip_filter() {
    let mut rule = admin_rule();
    rule.src_ip = Some("192.168.1.1".to_string());
    let engine = IdsEngine::new(vec![rule]).unwrap();
    let other_src = FrameView {
        src: Ipv4Address { a: 10, b: 0, c: 0, d: 5 },
        proto: NextProto::Tcp,
        payload: tcp_payload(80, "GET /admin HTTP/1.1"),
    };
    assert!(engine.inspect(&other_src).is_none());
    let right_src = FrameView {
        src: Ipv4Address { a: 192, b: 168, c: 1, d: 1 },
        proto: NextProto::Tcp,
        payload: tcp_payload(80, "GET /admin HTTP/1.1"),
    };
    assert!(engine.inspect(&right_src).is_some());
}

#[test]
fn inspect_is_idempotent() {
    let engine = IdsEngine::new(vec![admin_rule()]).unwrap();
    let frame = FrameView {
        src: Ipv4Address { a: 10, b: 0, c: 0, d: 5 },
        proto: NextProto::Tcp,
        payload: tcp_payload(80, "login admin\r\npass"),
    };
    let first = engine.inspect(&frame);
    let second = engine.inspect(&frame);
    assert_eq!(first, second);
    assert!(first.is_some());
}

#[test]
fn rule_without_pattern_never_alerts() {
    let no_pattern = IdsRule {
        name: "Silent".to_string(),
        protocol: Protocol::Tcp,
        src_ip: None,
        dst_port: None,
        pattern: None,
    };
    let engine = IdsEngine::new(vec![no_pattern]).unwrap();
    let frame = FrameView {
        src: Ipv4Address { a: 10, b: 0, c: 0, d: 5 },
        proto: NextProto::Tcp,
        payload: tcp_payload(80, "Silent admin UNION SELECT /bin/sh"),
    };
    assert!(engine.inspect(&frame).is_none());
}

#[test]
fn preview_is_bounded_and_normalized() {
    let engine = IdsEngine::new(vec![admin_rule()]).unwrap();
    let mut text = String::from("admin\r\nline2\n");
    for _ in 0..40 {
        text.push_str("abcdefgh");
    }
    let frame = FrameView {
        src: Ipv4Address { a: 1, b: 2, c: 3, d: 4 },
        proto: NextProto::Tcp,
        payload: tcp_payload(80, &text),
    };
    let alert = engine.inspect(&frame).unwrap();
    assert_eq!(alert.payload_preview.chars().count(), 100);
    assert!(!alert.payload_preview.contains('\n'));
    assert!(!alert.payload_preview.contains('\r'));
    assert!(alert.payload_preview.contains("admin  line2 "));
}

#[test]
fn first_occurrence_in_text_order_wins() {
    let sql = IdsRule {
        name: "SQL".to_string(),
        protocol: Protocol::Tcp,
        src_ip: None,
        dst_port: None,
        pattern: Some("UNION SELECT".to_string()),
    };
    let engine = IdsEngine::new(vec![admin_rule(), sql]).unwrap();
    let frame = FrameView {
        src: Ipv4Address { a: 10, b: 0, c: 0, d: 5 },
        proto: NextProto::Tcp,
        payload: tcp_payload(80, "UNION SELECT x; admin"),
    };
    let alert = engine.inspect(&frame).unwrap();
    assert_eq!(alert.rule_name, "SQL");
}

#[test]
fn short_tcp_payload_has_no_port() {
    // a rule that requires a port never matches a frame whose payload is too
    // short to carry a TCP header
    let mut rule = admin_rule();
    rule.dst_port = Some(0);
    rule.pattern = Some("ad".to_string());
    let engine = IdsEngine::new(vec![rule]).unwrap();
    let frame = FrameView {
        src: Ipv4Address { a: 10, b: 0, c: 0, d: 5 },
        proto: NextProto::Tcp,
        payload: b"ad".to_vec(),
    };
    assert!(engine.inspect(&frame).is_none());
}

#[test]
fn only_a_tcp_requirement_filters_the_protocol() {
    // only a rule that requires TCP rejects on protocol; Udp and Any leave
    // the frame's protocol unconstrained
    let udp_rule = IdsRule {
        name: "U".to_string(),
        protocol: Protocol::Udp,
        src_ip: None,
        dst_port: None,
        pattern: Some("probe".to_string()),
    };
    let any_rule = IdsRule {
        name: "A".to_string(),
        protocol: Protocol::Any,
        src_ip: None,
        dst_port: None,
        pattern: Some("probe".to_string()),
    };
    let src = Ipv4Address { a: 10, b: 0, c: 0, d: 5 };
    let engine = IdsEngine::new(vec![udp_rule]).unwrap();
    let tcp_frame = FrameView {
        src,
        proto: NextProto::Tcp,
        payload: tcp_payload(80, "probe"),
    };
    assert!(engine.inspect(&tcp_frame).is_some());
    let engine = IdsEngine::new(vec![any_rule]).unwrap();
    let icmp_frame = FrameView {
        src,
        proto: NextProto::Icmp,
        payload: b"probe".to_vec(),
    };
    assert!(engine.inspect(&icmp_frame).is_some());
}
