use cyberkit::capture::parse_capture;
use cyberkit::monitor::{process_frame, CaptureCounters};
use cyberkit::stats::analyze_pcap;
use cyberkit::config::load_rules;

fn eth_ipv4_tcp_frame(src: [u8; 4], dst_port: u16, flags: u8, text: &str) -> Vec<u8> {
    let mut f = vec![0u8; 14];
    f[12] = 0x08; // IPv4 ethertype
    f[13] = 0x00;
    let tcp_len = 20 + text.len();
    let total_len = 20 + tcp_len;
    let mut ip = vec![0u8; 20];
    ip[0] = 0x45; // version 4, header length 5 words
    ip[2] = (total_len >> 8) as u8;
    ip[3] = (total_len & 0xff) as u8;
    ip[9] = 6; // TCP
    ip[12] = src[0];
    ip[13] = src[1];
    ip[14] = src[2];
    ip[15] = src[3];
    f.extend_from_slice(&ip);
    let mut tcp = vec![0u8; 20];
    tcp[2] = (dst_port >> 8) as u8;
    tcp[3] = (dst_port & 0xff) as u8;
    tcp[12] = 0x50;
    tcp[13] = flags;
    f.extend_from_slice(&tcp);
    f.extend_from_slice(text.as_bytes());
    f
}

fn capture_file(frames: &[Vec<u8>]) -> Vec<u8> {
    let mut data = vec![0xd4u8, 0xc3, 0xb2, 0xa1]; // little-endian magic
    data.extend_from_slice(&[0u8; 20]); // rest of the global header
    for frame in frames {
        let mut rec = vec![0u8; 16];
        let n = frame.len() as u32;
        rec[8] = (n & 0xff) as u8;
        rec[9] = ((n >> 8) & 0xff) as u8;
        rec[10] = ((n >> 16) & 0xff) as u8;
        rec[11] = ((n >> 24) & 0xff) as u8;
        rec[12] = rec[8];
        rec[13] = rec[9];
        rec[14] = rec[10];
        rec[15] = rec[11];
        data.extend_from_slice(&rec);
        data.extend_from_slice(frame);
    }
    data
}

#[test]
fn capture_roundtrip() {
    let f1 = eth_ipv4_tcp_frame([10, 0, 0, 1], 80, 0x02, "hello");
    let f2 = eth_ipv4_tcp_frame([10, 0, 0, 2], 443, 0x18, "admin");
    let data = capture_file(&[f1.clone(), f2.clone()]);
    let frames = parse_capture(&data).unwrap();
    assert_eq!(frames.len(), 2);
    assert_eq!(frames[0], f1);
    assert_eq!(frames[1], f2);
}

#[test]
fn capture_rejects_other_files() {
    assert!(parse_capture(b"PNG...").is_none());
    assert!(parse_capture(&[]).is_none());
    // right magic, too short for the global header
    assert!(parse_capture(&[0xd4, 0xc3, 0xb2, 0xa1]).is_none());
}

#[test]
fn capture_stops_at_truncated_record() {
    let f1 = eth_ipv4_tcp_frame([10, 0, 0, 1], 80, 0x02, "x");
    let mut data = capture_file(&[f1.clone()]);
    // a record header that promises more bytes than the file holds
    let mut bad = vec![0u8; 16];
    bad[8] = 0xff;
    data.extend_from_slice(&bad);
    let frames = parse_capture(&data).unwrap();
    assert_eq!(frames.len(), 1);
    assert_eq!(frames[0], f1);
}

#[test]
fn analyze_counts_protocols_and_syns() {
    let syn = eth_ipv4_tcp_frame([10, 0, 0, 1], 80, 0x02, "");
    let synack = eth_ipv4_tcp_frame([10, 0, 0, 2], 80, 0x12, "");
    let push = eth_ipv4_tcp_frame([10, 0, 0, 1], 80, 0x18, "data");
    let arp = vec![0u8; 40]; // not IPv4: counted in the total only
    let data = capture_file(&[syn, synack, push, arp]);
    let stats = analyze_pcap(&data).unwrap();
    assert_eq!(stats.total, 4);
    assert_eq!(stats.tcp, 3);
    assert_eq!(stats.udp, 0);
    assert_eq!(stats.icmp, 0);
    assert_eq!(stats.syn_flags, 1);
    assert_eq!(stats.src_ips.len(), 2);
    let one = stats.src_ips.iter().find(|e| e.0 == "10.0.0.1").unwrap();
    assert_eq!(one.1, 2);
    let two = stats.src_ips.iter().find(|e| e.0 == "10.0.0.2").unwrap();
    assert_eq!(two.1, 1);
}

#[test]
fn frame_counter_advances_even_without_alert() {
    let engine = load_rules(Some("[]")).unwrap();
    let mut counters = CaptureCounters::new();
    let frame = eth_ipv4_tcp_frame([10, 0, 0, 1], 80, 0x18, "admin");
    assert!(process_frame(&engine, &mut counters, &frame).is_none());
    assert!(process_frame(&engine, &mut counters, &frame).is_none());
    assert_eq!(counters.frames, 2);
    assert_eq!(counters.alerts, 0);
}

#[test]
fn alert_counter_advances_on_alert() {
    let engine = load_rules(None).unwrap();
    let mut counters = CaptureCounters::new();
    let quiet = eth_ipv4_tcp_frame([10, 0, 0, 1], 80, 0x18, "nothing here");
    let noisy = eth_ipv4_tcp_frame([10, 0, 0, 7], 80, 0x18, "try admin now");
    assert!(process_frame(&engine, &mut counters, &quiet).is_none());
    let alert = process_frame(&engine, &mut counters, &noisy).unwrap();
    assert_eq!(alert.rule_name, "Tentativa de Acesso a Admin");
    assert_eq!(alert.source_ip, "10.0.0.7");
    assert_eq!(counters.frames, 2);
    assert_eq!(counters.alerts, 1);
}

#[test]
fn capture_accepts_nanosecond_magic() {
    let f1 = eth_ipv4_tcp_frame([10, 0, 0, 1], 80, 0x02, "x");
    let mut data = capture_file(&[f1.clone()]);
    // rewrite the magic to the little-endian nanosecond-timestamp form
    data[0] = 0x4d;
    data[1] = 0x3c;
    let frames = parse_capture(&data).unwrap();
    assert_eq!(frames.len(), 1);
    assert_eq!(frames[0], f1);
}
