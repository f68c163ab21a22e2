use dynamod::common::types::{ServiceName, ServiceStatus};
use std::collections::HashSet;

#[test]
fn service_name_display() {
    let name = ServiceName::from("postgresql");
    assert_eq!(name.to_string(), "postgresql");
}

#[test]
fn service_name_equality() {
    let a = ServiceName::from("sshd");
    let b = ServiceName("sshd".to_string());
    assert_eq!(a, b);
}

#[test]
fn service_name_from_string() {
    let name = ServiceName::from("test-service".to_string());
    assert_eq!(name.0, "test-service");
}

#[test]
fn service_status_display_simple() {
    assert_eq!(ServiceStatus::Stopped.to_string(), "stopped");
    assert_eq!(ServiceStatus::Starting.to_string(), "starting");
    assert_eq!(ServiceStatus::WaitingReady.to_string(), "waiting-ready");
    assert_eq!(ServiceStatus::Running.to_string(), "running");
    assert_eq!(ServiceStatus::Stopping.to_string(), "stopping");
    assert_eq!(ServiceStatus::Abandoned.to_string(), "abandoned");
}

#[test]
fn service_status_display_failed_exit_code() {
    let status = ServiceStatus::Failed { exit_code: Some(1), signal: None };
    assert_eq!(status.to_string(), "failed(exit=1)");
}

#[test]
fn service_status_display_failed_signal() {
    let status = ServiceStatus::Failed { exit_code: None, signal: Some(9) };
    assert_eq!(status.to_string(), "failed(signal=9)");
}

#[test]
fn service_status_display_failed_both() {
    let status = ServiceStatus::Failed { exit_code: Some(1), signal: Some(15) };
    assert_eq!(status.to_string(), "failed(exit=1signal=15)");
}

#[test]
fn service_name_hash_consistent() {
    let mut set = HashSet::new();
    set.insert(ServiceName::from("sshd"));
    assert!(set.contains(&ServiceName::from("sshd")));
    assert!(!set.contains(&ServiceName::from("nginx")));
}

#[test]
fn service_status_from_str_simple() {
    assert_eq!("stopped".parse::<ServiceStatus>().unwrap(), ServiceStatus::Stopped);
    assert_eq!("running".parse::<ServiceStatus>().unwrap(), ServiceStatus::Running);
    assert_eq!("starting".parse::<ServiceStatus>().unwrap(), ServiceStatus::Starting);
    assert_eq!("stopping".parse::<ServiceStatus>().unwrap(), ServiceStatus::Stopping);
    assert_eq!("waiting-ready".parse::<ServiceStatus>().unwrap(), ServiceStatus::WaitingReady);
    assert_eq!("abandoned".parse::<ServiceStatus>().unwrap(), ServiceStatus::Abandoned);
}

#[test]
fn service_status_from_str_failed() {
    let status: ServiceStatus = "failed(exit=1)".parse().unwrap();
    assert_eq!(status, ServiceStatus::Failed { exit_code: Some(1), signal: None });
}

#[test]
fn service_status_from_str_unknown() {
    assert!("bogus".parse::<ServiceStatus>().is_err());
}

#[test]
fn service_status_display_roundtrip() {
    let statuses = vec![
        ServiceStatus::Stopped,
        ServiceStatus::Running,
        ServiceStatus::Starting,
        ServiceStatus::Stopping,
        ServiceStatus::WaitingReady,
        ServiceStatus::Abandoned,
    ];
    for status in statuses {
        let displayed = status.to_string();
        let parsed: ServiceStatus = displayed.parse().unwrap();
        assert_eq!(status, parsed);
    }
}

#[test]
fn failed_status_round_trip_keeps_one_of_two() {
    for (exit_code, signal) in [(Some(0), None), (Some(-1), None), (None, Some(9)), (None, None)] {
        let status = ServiceStatus::Failed { exit_code, signal };
        let parsed: ServiceStatus = status.to_string().parse().unwrap();
        assert_eq!(parsed, ServiceStatus::Failed { exit_code, signal });
    }
}
