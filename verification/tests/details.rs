use dynamod::bus::{escape_fully, escape_lightly};
use dynamod::common::protocol::{self, Message, MessageBody, MessageKind};
use dynamod::common::types::ServiceStatus;
use dynamod::hostnamed::hostname::{read_os_release_field, until_zero};
use dynamod::hostnamed::timedate::zone_path;
use dynamod::logind::acpi::{device_node, is_docked};
use dynamod::logind::auth::{check_power_action, check_session_action};
use dynamod::logind::config::{text_in_range, time_in_range, Config, HandleAction};
use dynamod::logind::device::{
    device_path, resolve_devname, revert_session_acl, uevent_path, DeviceDir,
};
use dynamod::logind::inhibitor::create_inhibitor;
use dynamod::logind::manager::{
    escape_object_path_component, seat_object_path, session_object_path, user_object_path,
};
use dynamod::logind::power::{drop_released, execute_shutdown, execute_sleep};
use dynamod::logind::power::{PowerStep, ShutdownKind, SleepKind};
use dynamod::logind::properties;
use dynamod::logind::runtime_dir::{after_mount, DirStep};
use dynamod::logind::state::{
    next_inhibitor_cookie, next_session_id, now_realtime_usec, Counters, LoginState,
};
use dynamod::pam::{pam_sm_close_session, pam_sm_open_session, PAM_SUCCESS};
use dynamod::sd1bridge::mapping::{escape_unit_path, load_state};
use dynamod::sdnotify::{
    notify_target, sd_seat_get_active, sd_session_get_seat, sd_session_get_type,
    sd_session_is_active, EINVAL,
};
use dynamod::svmgr::cgroup::hierarchy::{controller_writes, CgroupHierarchy};
use dynamod::svmgr::cgroup::limits::{read_string, read_u64};
use dynamod::svmgr::cgroup::monitor::{read_memory_high, read_oom_kill_count};
use dynamod::svmgr::dependency::cycle::format_cycles;
use dynamod::svmgr::ipc::init_channel::{MessageIds, ReadBuffer};
use dynamod::svmgr::process::readiness::notify_socket_for;
use dynamod::svmgr::process::spawn::numeric_id;
use dynamod::svmgr::supervisor::lifecycle::{ExitInfo, ServiceState};
use dynamod::svmgr::supervisor::strategy::{
    apply_one_for_all, apply_one_for_one, apply_rest_for_one, should_restart,
};
use dynamod::svmgr::config::service::RestartPolicy;
use dynamod::time::{Duration, Instant};

fn strings(v: &[&str]) -> Vec<String> {
    v.iter().map(|s| s.to_string()).collect()
}

#[test]
fn names_are_escaped_for_object_paths() {
    assert_eq!(escape_fully("a1"), "_61_31");
    assert_eq!(escape_fully(""), "_");
    assert_eq!(escape_lightly("seat-0"), "seat_2d0");
    assert_eq!(escape_object_path_component("a_b"), "a_b");
    assert_eq!(escape_unit_path("a.service"), "a_2eservice");
    assert_eq!(escape_unit_path(""), "_");
    assert_eq!(session_object_path("1"), "/org/freedesktop/login1/session/_31");
    assert_eq!(seat_object_path("seat0"), "/org/freedesktop/login1/seat/seat0");
    assert_eq!(user_object_path(10), "/org/freedesktop/login1/user/_31_30");
}

#[test]
fn statuses_are_read_from_text() {
    assert_eq!(ServiceStatus::from_str("waiting-ready"), Ok(ServiceStatus::WaitingReady));
    assert_eq!(
        ServiceStatus::from_str("failed(exit=3)"),
        Ok(ServiceStatus::Failed { exit_code: Some(3), signal: None })
    );
    assert_eq!(
        ServiceStatus::from_str("gone").unwrap_err(),
        "unknown service status: gone"
    );
}

#[test]
fn files_of_the_host_are_read() {
    assert_eq!(until_zero(&[104, 105, 0, 106]), 2);
    assert_eq!(until_zero(&[104, 105]), 2);
    let etc = "NAME=Alpine\nPRETTY_NAME=\"Alpine Linux\"\n";
    assert_eq!(
        read_os_release_field(Some(etc), None, "PRETTY_NAME").as_deref(),
        Some("Alpine Linux")
    );
    assert_eq!(
        read_os_release_field(None, Some("NAME=x\n"), "NAME").as_deref(),
        Some("x")
    );
    assert_eq!(read_os_release_field(Some(""), Some("NAME=x\n"), "NAME"), None);
    assert_eq!(zone_path("Europe/Oslo"), "/usr/share/zoneinfo/Europe/Oslo");
}

#[test]
fn devices_have_their_places() {
    assert_eq!(device_node("event3"), "/dev/input/event3");
    assert!(!is_docked());
    assert_eq!(device_path(226, 1), "/dev/char/226:1");
    assert_eq!(uevent_path(13, 64), "/sys/dev/char/13:64/uevent");
    assert_eq!(
        resolve_devname("MAJOR=13\nDEVNAME=input/event0\n").as_deref(),
        Some("/dev/input/event0")
    );
    assert_eq!(resolve_devname("MAJOR=13\n"), None);
    assert!(DeviceDir::Graphics.hands_over("renderD128"));
    assert!(!DeviceDir::Graphics.hands_over("by-path"));
    assert!(DeviceDir::Input.hands_over("mice"));
    assert!(!DeviceDir::Input.hands_over("js0"));
    assert!(DeviceDir::Sound.hands_over("timer"));
    let back = revert_session_acl("seat0", &strings(&["/dev/dri/card0"]));
    assert_eq!((back[0].path.as_str(), back[0].uid, back[0].mode), ("/dev/dri/card0", 0, 0o660));
}

#[test]
fn everyone_is_allowed() {
    assert_eq!(check_power_action(1000, "reboot"), "yes");
    assert!(check_session_action(1000, 1001));
}

#[test]
fn settings_apply_one_by_one() {
    let mut cfg = Config::default();
    cfg.apply("HandlePowerKey", "suspend");
    assert_eq!(cfg.handle_power_key, HandleAction::Suspend);
    cfg.apply("HandlePowerKey", "dance");
    assert_eq!(cfg.handle_power_key, HandleAction::Suspend);
    assert!(time_in_range("5min"));
    assert!(!time_in_range("18446744073709551615h"));
    assert!(!text_in_range("UserStopDelaySec=18446744073709551615h\n"));
    assert!(text_in_range("# UserStopDelaySec=18446744073709551615h\n"));
    let mut st = LoginState::with_config(cfg);
    st.config.user_stop_delay = Duration::from_millis(1500);
    assert_eq!(properties::user_stop_delay_u_sec(&st), 1_500_000);
    assert_eq!(properties::can_hybrid_sleep(Some("mem disk")), "yes");
    assert_eq!(properties::can_hybrid_sleep(Some("mem")), "na");
}

#[test]
fn locks_select_what_they_name() {
    let lock = |what: &str, mode: &str, cookie: u64| {
        create_inhibitor(
            what.to_string(),
            "w".to_string(),
            "y".to_string(),
            mode.to_string(),
            1,
            2,
            cookie,
        )
    };
    let a = lock("sleep:idle", "block", 1);
    assert!(a.is_for("idle"));
    assert!(!a.is_for("id"));
    assert!(a.mentions("id"));
    assert!(a.has_mode("block"));
    let mut locks = vec![a, lock("sleep", "delay", 2), lock("sleep", "block", 3)];
    drop_released(&mut locks, &vec![2, 9]);
    assert_eq!(locks.iter().map(|l| l.cookie).collect::<Vec<_>>(), vec![1, 3]);
    let mut st = LoginState::new();
    st.inhibitors = locks;
    assert_eq!(st.active_block_inhibitors("sleep").len(), 2);
    assert_eq!(st.active_block_inhibitors("idle").len(), 1);
    assert!(st.active_delay_inhibitors("sleep").is_empty());
}

#[test]
fn sleep_and_shutdown_go_step_by_step() {
    let max = Duration::from_secs(5);
    let steps = execute_sleep(SleepKind::Hibernate, max);
    assert!(matches!(steps[0], PowerStep::SleepSignal(true)));
    assert!(matches!(steps[1], PowerStep::AwaitDelays("sleep", _)));
    assert!(matches!(steps[2], PowerStep::WriteState("disk")));
    assert!(matches!(steps[3], PowerStep::SleepSignal(false)));
    assert_eq!(steps.len(), 4);
    let steps = execute_shutdown(ShutdownKind::Halt, max);
    assert!(matches!(steps[0], PowerStep::ShutdownSignal(true)));
    assert!(matches!(steps[1], PowerStep::AwaitDelays("shutdown", _)));
    assert!(matches!(steps[2], PowerStep::AskManager(protocol::ShutdownKind::Halt)));
    assert_eq!(steps.len(), 3);
}

#[test]
fn mounted_directory_is_given_to_its_user() {
    let steps = after_mount(1000, 100);
    assert!(matches!(&steps[0], DirStep::Owner(p, 1000, 100) if p == "/run/user/1000"));
    assert!(matches!(&steps[1], DirStep::Mode(p, 0o700) if p == "/run/user/1000"));
}

#[test]
fn counters_give_out_numbers() {
    let mut c = Counters { next_session: 7, next_cookie: u64::MAX };
    assert_eq!(next_session_id(&mut c), "7");
    assert_eq!(next_session_id(&mut c), "8");
    assert_eq!(next_inhibitor_cookie(&mut c), u64::MAX);
    assert_eq!(next_inhibitor_cookie(&mut c), 0);
    assert_eq!(now_realtime_usec(Some(Duration { secs: 2, nanos: 3_999 })), 2_000_003);
    assert_eq!(now_realtime_usec(None), 0);
    let mut ids = MessageIds::new();
    assert_eq!(ids.next_id(), 1);
    let m = ids.log_to_kmsg(4, "hot".to_string());
    assert_eq!(m.id, 2);
    assert!(matches!(m.kind, MessageKind::Request));
    assert!(matches!(m.body, MessageBody::LogToKmsg { level: 4, message } if message == "hot"));
}

#[test]
fn logins_never_fail_for_the_module() {
    assert_eq!(pam_sm_open_session(true), PAM_SUCCESS);
    assert_eq!(pam_sm_open_session(false), PAM_SUCCESS);
    assert_eq!(pam_sm_close_session(false), PAM_SUCCESS);
}

#[test]
fn sessions_are_told_to_services() {
    assert_eq!(load_state("stopped"), "loaded");
    assert_eq!(notify_target("@dynamod"), "\0dynamod");
    assert_eq!(notify_target(&notify_socket_for("db")), "/run/dynamod/notify-db.sock");
    assert_eq!(sd_session_get_type(true, true), Ok("tty"));
    assert_eq!(sd_session_get_type(false, true), Err(-EINVAL));
    assert_eq!(sd_session_get_seat(true, true), Ok("seat0"));
    assert_eq!(sd_session_get_seat(true, false), Err(-EINVAL));
    assert_eq!(sd_session_is_active(true), 1);
    assert_eq!(sd_session_is_active(false), -EINVAL);
    assert_eq!(sd_seat_get_active(), "1");
}

#[test]
fn control_files_of_cgroups() {
    let writes = controller_writes("/c");
    assert_eq!(writes.len(), 4);
    assert!(writes.iter().all(|w| w.path == "/c/cgroup.subtree_control"));
    let values: Vec<&str> = writes.iter().map(|w| w.value.as_str()).collect();
    assert_eq!(values, vec!["+cpu", "+memory", "+io", "+pids"]);
    assert_eq!(CgroupHierarchy::init().root(), "/sys/fs/cgroup/dynamod");
    assert!(CgroupHierarchy::is_available(true));
    assert!(!CgroupHierarchy::is_available(false));
    assert_eq!(read_u64(Some(" 12\n")), Some(12));
    assert_eq!(read_u64(Some("max")), None);
    assert_eq!(read_string(Some(" max\n")).as_deref(), Some("max"));
    assert_eq!(read_oom_kill_count(Some("low 0\noom 1\noom_kill 3\n")), 3);
    assert_eq!(read_oom_kill_count(None), 0);
    assert_eq!(read_memory_high(Some("max\n")), None);
    assert_eq!(read_memory_high(Some("4096\n")), Some(4096));
}

#[test]
fn cycles_are_written_out() {
    let cycles = vec![strings(&["a", "b"]), strings(&["c"])];
    assert_eq!(format_cycles(&cycles), "a -> b -> a; c -> c");
}

#[test]
fn messages_come_in_pieces() {
    let frame = protocol::encode(&[1, 2, 3]).unwrap();
    let mut buffer = ReadBuffer::new();
    buffer.feed(&frame[..4]);
    assert!(buffer.next_payload().is_none());
    buffer.feed(&frame[4..]);
    buffer.feed(&frame);
    let msg = || Message { id: 1, kind: MessageKind::Event, body: MessageBody::HeartbeatAck };
    let (payload, used) = buffer.next_payload().unwrap();
    assert_eq!(payload, vec![1, 2, 3]);
    assert!(buffer.settle(Ok(msg()), used).is_some());
    let (payload, used) = buffer.next_payload().unwrap();
    assert_eq!(payload, vec![1, 2, 3]);
    assert!(buffer.settle(Err("bad".to_string()), used).is_none());
    assert!(buffer.next_payload().is_none());
}

#[test]
fn states_and_exits_of_services() {
    let failed = ServiceState::Failed { exit_code: Some(1), signal: None };
    assert!(failed.is_stopped());
    assert!(ServiceState::Abandoned.is_stopped());
    assert!(!ServiceState::Stopping { deadline: None }.is_stopped());
    assert_eq!(failed.display_name(), "failed");
    assert_eq!(ServiceState::Stopping { deadline: None }.display_name(), "stopping");
    let clean = ExitInfo { exit_code: Some(0), signal: None };
    let killed = ExitInfo { exit_code: None, signal: Some(9) };
    assert!(clean.is_normal());
    assert!(!killed.is_normal());
    assert!(should_restart(&RestartPolicy::Permanent, &clean));
    assert!(!should_restart(&RestartPolicy::Transient, &clean));
    assert!(should_restart(&RestartPolicy::Transient, &killed));
    assert!(!should_restart(&RestartPolicy::Temporary, &killed));
}

#[test]
fn strategies_choose_the_children() {
    let all = strings(&["a", "b", "c"]);
    let one = apply_one_for_one("b");
    assert_eq!((one.to_stop, one.to_start), (strings(&[]), strings(&["b"])));
    let every = apply_one_for_all(&all, "b");
    assert_eq!((every.to_stop, every.to_start), (strings(&["c", "b", "a"]), all.clone()));
    let rest = apply_rest_for_one(&all, "b");
    assert_eq!((rest.to_stop, rest.to_start), (strings(&["c", "b"]), strings(&["b", "c"])));
    let stranger = apply_rest_for_one(&all, "x");
    assert_eq!(stranger.to_start, all);
}

#[test]
fn numbers_stand_for_users() {
    assert_eq!(numeric_id("1000"), Some(1000));
    assert_eq!(numeric_id("+7"), Some(7));
    assert_eq!(numeric_id("root"), None);
    assert_eq!(numeric_id("4294967296"), None);
}

#[test]
fn instants_and_spans() {
    let d = Duration { secs: 1, nanos: 500 };
    assert_eq!(d.as_nanos(), 1_000_000_500);
    let t = Instant { nanos: 2_000_000_500 };
    assert_eq!(t.checked_sub(d), Some(Instant { nanos: 1_000_000_000 }));
    assert_eq!(Instant { nanos: i128::MIN }.checked_sub(d), None);
}
