use cyberkit::cli::{select_mode, RunMode};
use cyberkit::monitor::{format_log_line, format_ui_message, IdsMessage, IdsState};
use cyberkit::rules::Alert;

fn sample_alert() -> Alert {
    Alert {
        rule_name: "Admin".to_string(),
        source_ip: "10.0.0.5".to_string(),
        payload_preview: "GET /admin".to_string(),
    }
}

#[test]
fn log_line_has_the_documented_form() {
    let line = format_log_line("2024-05-01 12:30:00", &sample_alert());
    assert_eq!(
        line,
        "[2024-05-01 12:30:00] ALERT: Admin | SRC: 10.0.0.5 | PAYLOAD: GET /admin\n"
    );
}

#[test]
fn channel_message_has_the_documented_form() {
    let text = format_ui_message(&sample_alert());
    assert_eq!(text, "10.0.0.5 -> Admin (GET /admin)");
}

#[test]
fn state_counts_packets_and_alerts() {
    let mut state = IdsState::new();
    assert_eq!(state.packet_count, 0);
    assert_eq!(state.alert_count, 0);
    state.apply_message(IdsMessage::PacketProcessed);
    state.apply_message(IdsMessage::PacketProcessed);
    state.apply_message(IdsMessage::Alert("one".to_string()));
    state.apply_message(IdsMessage::Info("note".to_string()));
    assert_eq!(state.packet_count, 2);
    assert_eq!(state.alert_count, 1);
    assert_eq!(state.alerts, vec!["one".to_string()]);
    assert_eq!(state.last_packet_info, "note");
}

#[test]
fn alert_history_is_bounded() {
    let mut state = IdsState::new();
    for i in 0..25u32 {
        state.apply_message(IdsMessage::Alert(format!("alert {}", i)));
    }
    assert_eq!(state.alert_count, 25);
    assert_eq!(state.alerts.len(), 20);
    assert_eq!(state.alerts[0], "alert 5");
    assert_eq!(state.alerts[19], "alert 24");
}

#[test]
fn mode_selection_prefers_the_file() {
    let file = Some("trace.pcap".to_string());
    let device = Some("eth0".to_string());
    assert!(matches!(select_mode(&file, &device), RunMode::Batch));
    assert!(matches!(select_mode(&file, &None), RunMode::Batch));
    assert!(matches!(select_mode(&None, &device), RunMode::Live));
    assert!(matches!(select_mode(&None, &None), RunMode::Invalid));
}
