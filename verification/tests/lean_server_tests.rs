use std::path::PathBuf;
use std::time::Duration;
use serde_json::Value as JsonValue;
use ttt::lean::server::{
    LeanServerConfig, LspError, LspMessage, ServerControl, ServerError, ServerMetrics, ServerState, frame_message,
};

fn object(key: &str, value: &str) -> JsonValue {
    let mut map = serde_json::Map::new();
    map.insert(key.to_string(), JsonValue::String(value.to_string()));
    JsonValue::Object(map)
}

fn running_control() -> ServerControl {
    let mut control = ServerControl::new(&LeanServerConfig::default());
    assert!(control.begin_start());
    control.finish_start();
    control
}

#[test]
fn test_lsp_message_creation() {
    let request = LspMessage::request(1, "test".to_string(), object("param", "value"));
    assert_eq!(request.id, Some(1));
    assert_eq!(request.method, Some("test".to_string()));
    assert!(request.params.is_some());

    let response = LspMessage::response(1, object("result", "success"));
    assert_eq!(response.id, Some(1));
    assert!(response.result.is_some());
    assert!(response.method.is_none());
}

#[test]
fn test_server_config_defaults() {
    let config = LeanServerConfig::default();
    assert_eq!(config.lean_executable, PathBuf::from("lean"));
    assert!(config.request_timeout > Duration::ZERO);
    assert!(config.max_concurrent_requests > 0);
}

#[test]
fn test_server_metrics() {
    let mut metrics = ServerMetrics::default();
    metrics.record_request();
    metrics.record_response(100);
    assert_eq!(metrics.requests_sent, 1);
    assert_eq!(metrics.responses_received, 1);
    let total = metrics.requests_sent;
    let errors = metrics.errors_received + metrics.timeouts;
    let success_rate = if total > 0 { 1.0 - (errors as f64 / total as f64) } else { 0.0 };
    assert_eq!(success_rate, 1.0);
}

#[test]
fn test_server_states() {
    assert_eq!(ServerState::Stopped, ServerState::Stopped);
    assert_ne!(ServerState::Running, ServerState::Stopped);
}

#[test]
fn test_average_response_time() {
    let mut metrics = ServerMetrics::default();
    metrics.record_response(100);
    metrics.record_response(50);
    metrics.record_response(30);
    assert_eq!(metrics.responses_received, 3);
    assert_eq!(metrics.avg_response_time_ms, 60);
    metrics.record_restart();
    assert_eq!(metrics.server_restarts, 1);
    assert!(metrics.uptime().is_some());
    assert!(ServerMetrics::default().uptime().is_none());
}

#[test]
fn test_lifecycle_of_a_connection() {
    let mut control = ServerControl::new(&LeanServerConfig::default());
    assert_eq!(control.state(), ServerState::Stopped);
    assert!(!control.begin_stop());
    assert!(control.begin_start());
    assert_eq!(control.state(), ServerState::Starting);
    control.finish_start();
    assert!(control.is_running());
    assert_eq!(control.metrics().server_restarts, 1);
    assert!(!control.begin_start());
    assert!(control.begin_stop());
    assert_eq!(control.state(), ServerState::Stopping);
    control.finish_stop();
    assert_eq!(control.state(), ServerState::Stopped);
}

#[test]
fn test_requests_need_a_running_server() {
    let mut control = ServerControl::new(&LeanServerConfig::default());
    assert!(matches!(control.begin_request("ping".to_string()), Err(ServerError::ServerNotRunning)));
    let mut control = running_control();
    assert_eq!(control.begin_request("ping".to_string()).unwrap(), 1);
    assert_eq!(control.begin_request("typeCheck".to_string()).unwrap(), 2);
    control.request_sent();
    assert_eq!(control.metrics().requests_sent, 1);
}

#[test]
fn test_responses_settle_pending_requests() {
    let mut control = running_control();
    let first = control.begin_request("a".to_string()).unwrap();
    let second = control.begin_request("b".to_string()).unwrap();
    let third = control.begin_request("c".to_string()).unwrap();

    let answered = control.handle_response(LspMessage::response(first, object("type", "Nat")));
    match answered {
        Some((id, Ok(value))) => {
            assert_eq!(id, first);
            assert_eq!(value, object("type", "Nat"));
        }
        _ => panic!("expected a result"),
    }
    assert_eq!(control.metrics().responses_received, 1);
    assert!(control.handle_response(LspMessage::response(first, object("x", "y"))).is_none());

    let error = LspError { code: -1, message: "bad goal".to_string(), data: None };
    match control.handle_response(LspMessage::error_response(second, error)) {
        Some((id, Err(ServerError::RequestFailed { error }))) => {
            assert_eq!(id, second);
            assert_eq!(error, "bad goal");
        }
        _ => panic!("expected a failure"),
    }

    let empty = LspMessage { id: Some(third), method: None, params: None, result: None, error: None, jsonrpc: "2.0".to_string() };
    match control.handle_response(empty) {
        Some((_, Err(e))) => assert_eq!(e.to_display_string(), "Invalid response: No result or error in response"),
        _ => panic!("expected an invalid response"),
    }
    assert_eq!(control.metrics().errors_received, 2);
    assert!(control.handle_response(LspMessage::notification("log".to_string(), object("m", "n"))).is_none());
}

#[test]
fn test_timeouts_and_abandoned_requests() {
    let mut control = running_control();
    let id = control.begin_request("slow".to_string()).unwrap();
    let e = control.request_timed_out(id, 30000);
    assert_eq!(e.to_display_string(), "Communication timeout after 30000ms");
    assert_eq!(control.metrics().timeouts, 1);
    let id = control.begin_request("gone".to_string()).unwrap();
    assert!(matches!(control.request_abandoned(id), ServerError::ServerNotRunning));
    assert!(control.clear_pending_requests().is_empty());
}

#[test]
fn test_restart_attempts_are_limited() {
    let mut control = running_control();
    assert!(control.begin_restart().is_ok());
    assert!(control.begin_restart().is_ok());
    assert!(control.begin_restart().is_ok());
    match control.begin_restart() {
        Err(e) => assert_eq!(e.to_display_string(), "Failed to start Lean server: Maximum restart attempts exceeded"),
        Ok(()) => panic!("a fourth restart must be refused"),
    }
}

#[test]
fn test_heartbeat_decisions() {
    let mut control = running_control();
    assert!(control.heartbeat_should_ping());
    assert!(!control.heartbeat_should_restart(true));
    assert!(control.heartbeat_should_restart(false));
    control.reader_closed();
    assert_eq!(control.state(), ServerState::Crashed);
    assert!(!control.heartbeat_should_ping());
    let mut config = LeanServerConfig::default();
    config.auto_restart = false;
    let quiet = ServerControl::new(&config);
    assert!(!quiet.heartbeat_should_restart(false));
}

#[test]
fn test_clearing_returns_each_pending_id_once() {
    let mut control = running_control();
    for m in ["a", "b", "c"] {
        control.begin_request(m.to_string()).unwrap();
    }
    let mut ids = control.clear_pending_requests();
    ids.sort();
    assert_eq!(ids, vec![1, 2, 3]);
    assert!(control.clear_pending_requests().is_empty());
}

#[test]
fn test_message_framing_counts_bytes() {
    assert_eq!(frame_message("{}"), "Content-Length: 2\r\n\r\n{}");
    assert_eq!(frame_message("\"é\""), "Content-Length: 4\r\n\r\n\"é\"");
}

#[test]
fn test_server_error_texts() {
    assert_eq!(ServerError::ServerNotRunning.to_display_string(), "Lean server not running");
    assert_eq!(ServerError::ServerCrashed { exit_code: None }.to_display_string(), "Server crashed: None");
    assert_eq!(ServerError::ServerCrashed { exit_code: Some(-3) }.to_display_string(), "Server crashed: Some(-3)");
    assert_eq!(ServerError::ProtocolError { message: "x".to_string() }.to_display_string(), "Protocol error: x");
}
