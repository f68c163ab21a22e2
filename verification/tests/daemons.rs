use dynamod::common::protocol::{Message, MessageBody, MessageKind, ServiceEntry, ShutdownKind};
use dynamod::ctl;
use dynamod::hostnamed::hostname::{
    detect_chassis, read_dmi, read_hostname, read_machine_info_field, update_machine_info,
    HostnameService,
};
use dynamod::hostnamed::keyval::{read_field, update};
use dynamod::hostnamed::locale::{
    read_locale_conf, read_vconsole_field, read_x11_keyboard_field, LocaleService,
};
use dynamod::hostnamed::timedate::TimedateService;
use dynamod::logd::collector::{collect_socket, collect_stdin};
use dynamod::logd::storage::{cleanup_old_logs, humantime, log_line, LogStorage};
use dynamod::pam::{
    classify_tty, close_request, infer_type, open_request, pam_sm_acct_mgmt, pam_sm_authenticate,
    pam_sm_setcred, parse_args, session_environment, LoginItems,
};
use dynamod::sd1bridge::client::{
    ack_result, list_result, pid_result, reply_body, status_result, SvmgrClient,
};
use dynamod::sd1bridge::manager::{
    get_unit, get_unit_by_pid, list_units, n_failed_units, n_names, pid_argument, virtualization,
};
use dynamod::sd1bridge::mapping::{
    map_status, service_to_unit, unit_object_path, unit_to_service,
};
use dynamod::sd1bridge::unit::{description, fragment_path, main_pid, unit_result};
use dynamod::sdnotify::{
    read_session_id, sd_booted, sd_journal_print, sd_journal_send, sd_listen_fds, sd_notify,
    sd_notify_sent, sd_pid_get_session, Notify,
};
use dynamod::time::Duration;

#[test]
fn other_keys_outlive_an_update() {
    let crlf = "A=\"one\"\r\nB=two\r\nC=three\r\n";
    let file = update(Some(crlf), "B", "new");
    assert_eq!(read_field(Some(&file), "A").as_deref(), Some("one"));
    assert_eq!(read_field(Some(&file), "B").as_deref(), Some("new"));
    assert_eq!(read_field(Some(&file), "C").as_deref(), Some("three"));
    // Another key whose line is left with a carriage return does not matter.
    let file = update(Some("A=one\nC=three\r"), "B", "new");
    assert_eq!(read_field(Some(&file), "A").as_deref(), Some("one"));
    // A last line without a line feed loses its carriage return.
    assert_eq!(read_field(Some("C=three\r"), "C").as_deref(), Some("three\r"));
    assert_eq!(read_field(Some(&file), "C").as_deref(), Some("three"));
}

#[test]
fn test_append_and_recent() {
    let mut store = LogStorage::new("/tmp/log", 1024 * 1024, Some(0));
    let now = Duration::from_secs(0);
    let first = log_line("test", "hello world", now);
    let second = log_line("test", "second line", now);
    store.append("test", "hello world", now, Some(first.len() as u64));
    store.append("test", "second line", now, Some(second.len() as u64));

    let recent = store.recent(10);
    assert_eq!(recent.len(), 2);
    assert_eq!(recent[0].message, "second line");
    assert_eq!(recent[1].message, "hello world");

    assert!(first.contains("hello world"));
    assert!(second.contains("second line"));
}

#[test]
fn test_rotation() {
    let mut store = LogStorage::new("/tmp/log", 50, Some(0));
    let now = Duration::from_secs(1234);
    let mut rotations = 0;
    for i in 0..10 {
        let message = format!("line number {i} with some padding");
        let line = log_line("test", &message, now);
        if store.append("test", &message, now, Some(line.len() as u64)) {
            assert_eq!(store.rotate(now), "/tmp/log/log-1234.log");
            assert!(!store.file_open);
            store.reopened(true);
            assert_eq!(store.current_size, 0);
            rotations += 1;
        }
    }
    assert!(rotations >= 1);
}

#[test]
fn only_the_latest_entries_are_kept() {
    let mut store = LogStorage::new("/tmp/log", u64::MAX, None);
    let now = Duration::from_secs(0);
    for i in 0..1001 {
        assert!(!store.append("s", &format!("{i}"), now, None));
    }
    let recent = store.recent(2000);
    assert_eq!(recent.len(), 1000);
    assert_eq!(recent[0].message, "1000");
    assert_eq!(recent[999].message, "1");
}

#[test]
fn old_files_are_removed_by_name() {
    let names: Vec<String> = ["log-3.log", "current.log", "log-1.log", "log-7.log", "log-2.log",
        "log-6.log", "log-5.log", "log-4.log", "notes.txt"]
        .iter()
        .map(|s| s.to_string())
        .collect();
    assert_eq!(cleanup_old_logs(&names), vec!["log-1.log", "log-2.log"]);
    assert!(cleanup_old_logs(&names[..4].to_vec()).is_empty());
}

#[test]
fn time_of_day_has_two_digits() {
    assert_eq!(humantime(Duration::from_secs(0)), "00:00:00");
    assert_eq!(humantime(Duration::from_secs(86400 + 3600 + 61)), "01:01:01");
    assert_eq!(
        log_line("web", "up", Duration::from_secs(86399)),
        "23:59:59 [web] up\n"
    );
}

#[test]
fn entries_come_from_input_and_socket() {
    assert_eq!(collect_stdin(""), None);
    assert_eq!(collect_stdin("x"), Some(("stdin".to_string(), "x".to_string())));
    assert_eq!(collect_socket("web\ta\tb"), ("web".to_string(), "a\tb".to_string()));
    assert_eq!(collect_socket("plain"), ("socket".to_string(), "plain".to_string()));
}

#[test]
fn tty_classifier_handles_common_inputs() {
    assert_eq!(classify_tty("tty1", ""), (1, "tty1".into(), "".into()));
    assert_eq!(classify_tty("tty7", ""), (7, "tty7".into(), "".into()));
    assert_eq!(classify_tty("/dev/tty2", ""), (2, "tty2".into(), "".into()));
    assert_eq!(classify_tty(":0", ""), (0, "".into(), ":0".into()));
    assert_eq!(classify_tty("", ":1"), (0, "".into(), ":1".into()));
    assert_eq!(classify_tty("pts/3", ""), (0, "pts/3".into(), "".into()));
}

#[test]
fn type_inference() {
    assert_eq!(infer_type(":0", "tty1"), "x11");
    assert_eq!(infer_type("", "tty1"), "tty");
    assert_eq!(infer_type("", ""), "unspecified");
}

fn items(tty: &str, rhost: &str) -> LoginItems {
    LoginItems {
        service: Some("login".to_string()),
        tty: Some(tty.to_string()),
        rhost: Some(rhost.to_string()),
        ruser: None,
        display: None,
    }
}

#[test]
fn login_asks_for_a_session() {
    let args = parse_args(&vec!["class=greeter".to_string(), "x".to_string(),
        "class=user-early".to_string(), "desktop=sway".to_string()]);
    let q = open_request(Some("ann"), Some(1000), 42, &items("/dev/tty2", ""), &args).unwrap();
    assert_eq!(q.seat, "seat0");
    assert_eq!(q.vtnr, 2);
    assert_eq!(q.tty, "tty2");
    assert_eq!(q.class, "user-early");
    assert_eq!(q.session_type, "tty");
    assert!(!q.remote);
    let env = session_environment("3", "/run/user/1000", "seat0", 2, &q);
    let pairs: Vec<(&str, &str)> = env.iter().map(|(n, v)| (*n, v.as_str())).collect();
    assert_eq!(
        pairs,
        vec![
            ("XDG_SESSION_ID", "3"),
            ("XDG_RUNTIME_DIR", "/run/user/1000"),
            ("XDG_SEAT", "seat0"),
            ("XDG_VTNR", "2"),
            ("XDG_SESSION_TYPE", "tty"),
            ("XDG_SESSION_CLASS", "user-early"),
            ("XDG_SESSION_DESKTOP", "sway"),
        ]
    );
}

#[test]
fn remote_login_has_no_seat() {
    let args = parse_args(&vec![]);
    let q = open_request(Some("ann"), Some(1), 2, &items("tty1", "far.example"), &args).unwrap();
    assert!(q.remote);
    assert_eq!(q.seat, "");
    let q = open_request(Some("ann"), Some(1), 2, &items("tty1", "localhost"), &args).unwrap();
    assert!(!q.remote);
    assert_eq!(q.seat, "seat0");
    assert_eq!(
        open_request(None, None, 2, &items("", ""), &args).unwrap_err(),
        "no PAM_USER"
    );
    assert_eq!(
        open_request(Some("bob"), None, 2, &items("", ""), &args).unwrap_err(),
        "no passwd entry for 'bob'"
    );
}

#[test]
fn module_never_stands_in_the_way() {
    assert_eq!(pam_sm_authenticate(), 0);
    assert_eq!(pam_sm_setcred(), 0);
    assert_eq!(pam_sm_acct_mgmt(), 25);
    assert_eq!(close_request(&Some("4".to_string())), Some("4".to_string()));
    assert_eq!(close_request(&Some(String::new())), None);
    assert_eq!(close_request(&None), None);
}

#[test]
fn machine_info_is_updated_and_read() {
    let text = update_machine_info(Some("CHASSIS=\"vm\"\nLOCATION=x\n"), "CHASSIS", "laptop");
    assert_eq!(text, "LOCATION=x\nCHASSIS=\"laptop\"\n");
    assert_eq!(
        read_machine_info_field(Some(&text), "CHASSIS"),
        Some("laptop".to_string())
    );
    assert_eq!(read_machine_info_field(Some(&text), "LOCATION"), Some("x".to_string()));
    let text = update_machine_info(Some(&text), "CHASSIS", "");
    assert_eq!(text, "LOCATION=x\n");
    assert_eq!(read_machine_info_field(Some(&text), "CHASSIS"), None);
    assert_eq!(update_machine_info(None, "CHASSIS", ""), "\n");
}

#[test]
fn hostname_is_written_and_read() {
    let file = HostnameService.set_static_hostname("box");
    assert_eq!(file, "box\n");
    assert_eq!(read_hostname(Some(&file)), "box");
    assert_eq!(read_hostname(None), "localhost");
    assert_eq!(
        HostnameService.describe(Some("box"), None, Some("PRETTY_NAME=\"Alpine\"")),
        "hostname=box, os=Alpine"
    );
    assert_eq!(HostnameService.os_pretty_name(None, None), "Linux");
    assert_eq!(HostnameService.icon_name(None), "computer");
    assert_eq!(HostnameService.chassis(None, Some("10\n")), "laptop");
    assert_eq!(HostnameService.hostname_source(false), "default");
}

#[test]
fn chassis_is_told_by_its_number() {
    assert_eq!(detect_chassis(Some("3")), Some("desktop".to_string()));
    assert_eq!(detect_chassis(Some("11")), Some("handset".to_string()));
    assert_eq!(detect_chassis(Some("23")), Some("server".to_string()));
    assert_eq!(detect_chassis(Some("31")), Some("tablet".to_string()));
    assert_eq!(detect_chassis(Some("1")), None);
    assert_eq!(detect_chassis(Some("x")), None);
    assert_eq!(read_dmi(Some(" ACME \n")), Some("ACME".to_string()));
    assert_eq!(read_dmi(Some(" \n")), None);
}

#[test]
fn locale_files_are_read_back() {
    let locale = vec!["LANG=C".to_string(), "LC_TIME=de_DE".to_string()];
    let file = LocaleService.set_locale(&locale);
    assert_eq!(file, "LANG=C\nLC_TIME=de_DE\n");
    assert_eq!(read_locale_conf(Some(&file)), locale);
    assert_eq!(read_locale_conf(Some("# no\n\nLANG=C\n")), vec!["LANG=C"]);
    let file = LocaleService.set_vc_console_keyboard("de", "");
    assert_eq!(file, "KEYMAP=de\n");
    let file = LocaleService.set_vc_console_keyboard("de", "us");
    assert_eq!(read_vconsole_field(Some(&file), "KEYMAP"), Some("de".to_string()));
    assert_eq!(read_vconsole_field(Some(&file), "KEYMAP_TOGGLE"), Some("us".to_string()));
}

#[test]
fn keyboard_file_is_read_back() {
    let file = LocaleService.set_x11_keyboard("us,de", "pc105", "", "grp:alt");
    assert!(file.contains("    Option \"XkbLayout\" \"us,de\"\n"));
    assert!(file.ends_with("EndSection\n"));
    assert_eq!(read_x11_keyboard_field(Some(&file), "XkbLayout"), Some("us,de".to_string()));
    assert_eq!(read_x11_keyboard_field(Some(&file), "XkbModel"), Some("pc105".to_string()));
    assert_eq!(read_x11_keyboard_field(Some(&file), "XkbVariant"), Some(String::new()));
    assert_eq!(read_x11_keyboard_field(Some(&file), "XkbOptions"), Some("grp:alt".to_string()));
    assert_eq!(read_x11_keyboard_field(None, "XkbModel"), None);
}

#[test]
fn time_zone_is_set_and_told() {
    let change = TimedateService.set_timezone("Europe/Berlin", true).unwrap();
    assert_eq!(change.target, "/usr/share/zoneinfo/Europe/Berlin");
    assert_eq!(change.file, "Europe/Berlin\n");
    assert!(TimedateService.set_timezone("Mars", false).is_err());
    assert_eq!(TimedateService.timezone(Some(&change.target), None), "Europe/Berlin");
    assert_eq!(TimedateService.timezone(Some("/odd"), Some("Asia/Tokyo\n")), "Asia/Tokyo");
    assert_eq!(TimedateService.timezone(None, None), "UTC");
    assert!(TimedateService.local_rtc(Some(TimedateService.set_local_rtc(true))));
    assert!(!TimedateService.local_rtc(Some(TimedateService.set_local_rtc(false))));
    assert_eq!(TimedateService.set_time(1_500_000), (1, 500_000));
    assert_eq!(TimedateService.set_time(-1_500_000), (-1, -500_000));
    assert!(TimedateService.ntp(&vec!["a".to_string(), "chronyd.pid".to_string()]));
    assert!(!TimedateService.ntp(&vec!["a".to_string()]));
}

#[test]
fn units_and_services_have_each_others_names() {
    assert_eq!(unit_to_service("sshd.service"), "sshd");
    assert_eq!(unit_to_service("sshd"), "sshd");
    assert_eq!(service_to_unit("sshd"), "sshd.service");
    assert_eq!(service_to_unit("sshd.service"), "sshd.service");
    assert_eq!(map_status("running"), ("active", "running"));
    assert_eq!(map_status("waiting-ready"), ("activating", "start"));
    assert_eq!(map_status("abandoned"), ("failed", "abandoned"));
    assert_eq!(map_status("failed(exit=1)"), ("inactive", "dead"));
    assert_eq!(
        unit_object_path("sshd.service"),
        "/org/freedesktop/systemd1/unit/sshd_2eservice"
    );
    assert_eq!(unit_object_path(""), "/org/freedesktop/systemd1/unit/_");
    assert_eq!(description("a.service"), "dynamod service: a");
    assert_eq!(fragment_path("a.service"), "/etc/dynamod/services/a.toml");
}

fn entry(name: &str, status: &str, pid: Option<i32>) -> ServiceEntry {
    ServiceEntry { name: name.to_string(), status: status.to_string(), pid }
}

#[test]
fn all_services_are_listed_as_units() {
    let services = vec![entry("a", "running", Some(3)), entry("b.service", "failed", None)];
    let units = list_units(Ok(services.clone())).unwrap();
    assert_eq!(units.len(), 2);
    assert_eq!(units[0].name, "a.service");
    assert_eq!(units[0].active_state, "active");
    assert_eq!(units[1].name, "b.service");
    assert_eq!(units[1].sub_state, "failed");
    assert_eq!(units[1].job_path, "/");
    assert_eq!(n_names(Ok(services.clone())).unwrap(), 2);
    assert_eq!(n_failed_units(Ok(services)).unwrap(), 1);
    assert!(list_units(Err("down".to_string())).is_err());
}

#[test]
fn requests_are_numbered() {
    let mut client = SvmgrClient::new();
    let m = client.start_service("a");
    assert_eq!(m.id, 1);
    assert_eq!(client.list_services().id, 2);
    let ok = Message { id: 1, kind: MessageKind::Event, body: MessageBody::Ack };
    assert!(ack_result(reply_body(4, Ok(ok))).is_ok());
    assert_eq!(
        ack_result(Ok(MessageBody::Error { message: "no".to_string() })).unwrap_err(),
        "no"
    );
    assert_eq!(ack_result(Ok(MessageBody::Reload)).unwrap_err(), "unexpected response");
    let none = Message { id: 1, kind: MessageKind::Event, body: MessageBody::Ack };
    assert_eq!(reply_body(0, Ok(none)).unwrap_err(), "empty response");
    let info = MessageBody::ServiceInfo {
        name: "a".to_string(),
        status: "running".to_string(),
        pid: Some(-1),
        supervisor: "root".to_string(),
    };
    let status = status_result(Ok(info)).unwrap();
    assert_eq!(get_unit("a", Ok(status)).unwrap().0, "a.service");
    let info = MessageBody::ServiceInfo {
        name: "a".to_string(),
        status: "running".to_string(),
        pid: Some(-1),
        supervisor: "root".to_string(),
    };
    assert_eq!(main_pid(status_result(Ok(info))).unwrap(), u32::MAX);
    assert!(list_result(Ok(MessageBody::Ack)).is_err());
    let by_pid = MessageBody::ServiceByPid { name: Some("a".to_string()), pid: 3 };
    assert_eq!(
        get_unit_by_pid(3, pid_result(Ok(by_pid))).unwrap(),
        "/org/freedesktop/systemd1/unit/a_2eservice"
    );
    assert!(get_unit_by_pid(3, Ok(None)).is_err());
    assert_eq!(pid_argument(u32::MAX), -1);
    assert!(unit_result("a", Err("no".to_string())).is_err());
}

#[test]
fn hypervisors_are_known_by_the_product() {
    assert_eq!(virtualization(Some("VirtualBox\n")), "oracle");
    assert_eq!(virtualization(Some("VMware7,1")), "vmware");
    assert_eq!(virtualization(Some("Standard PC (QEMU)")), "kvm");
    assert_eq!(virtualization(Some("Hyper-V")), "microsoft");
    assert_eq!(virtualization(Some("ThinkPad")), "");
    assert_eq!(virtualization(None), "");
}

#[test]
fn notifications_go_to_the_named_socket() {
    match sd_notify(Some("READY=1"), Some("@abstract")) {
        Notify::Send { target, text } => {
            assert_eq!(target, "\0abstract");
            assert_eq!(text, "READY=1");
        }
        other => panic!("expected Send, got {other:?}"),
    }
    assert!(matches!(sd_notify(Some("READY=1"), None), Notify::Return(0)));
    assert!(matches!(sd_notify(Some("READY=1"), Some("")), Notify::Return(0)));
    assert!(matches!(sd_notify(None, None), Notify::Return(-22)));
    assert_eq!(sd_notify_sent(true, 1), (1, true));
    assert_eq!(sd_notify_sent(false, 1), (-111, false));
}

#[test]
fn sockets_are_for_the_named_process() {
    assert_eq!(sd_listen_fds(Some("7"), 7, Some("2"), 1), (2, true));
    assert_eq!(sd_listen_fds(Some("7"), 8, Some("2"), 1), (0, false));
    assert_eq!(sd_listen_fds(Some("x"), 8, Some("2"), 1), (0, false));
    assert_eq!(sd_listen_fds(Some("7"), 7, None, 1), (0, false));
    assert_eq!(sd_booted(false, true), 1);
    assert_eq!(sd_booted(false, false), 0);
}

#[test]
fn journal_messages_have_a_priority() {
    assert_eq!(sd_journal_print(3, "bad"), "<3>bad");
    assert_eq!(sd_journal_print(99, "odd"), "<6>odd");
    assert_eq!(sd_journal_send("MESSAGE=hi"), "<6>hi");
    assert_eq!(sd_journal_send("hi"), "<6>hi");
    assert_eq!(read_session_id(Some("3\n")), Some("3".to_string()));
    assert_eq!(read_session_id(Some("4294967295")), None);
    assert_eq!(sd_pid_get_session(true, None), Err(-61));
    assert_eq!(sd_pid_get_session(false, Some("3")), Err(-22));
}

#[test]
fn services_are_listed_in_a_table() {
    let services = vec![entry("web", "running", Some(7)), entry("db", "stopped", None)];
    let text = ctl::list(MessageBody::ServiceList { services }).unwrap();
    let lines: Vec<&str> = text.split('\n').collect();
    assert_eq!(lines[0], format!("{:<30} {:<15} {:<10}", "SERVICE", "STATUS", "PID"));
    assert_eq!(lines[1], "-".repeat(55));
    assert_eq!(lines[2], format!("{:<30} {:<15} {:<10}", "db", "stopped", "-"));
    assert_eq!(lines[3], format!("{:<30} {:<15} {:<10}", "web", "running", "7"));
    assert_eq!(lines[4], "");
    assert_eq!(lines[5], "2 service(s) total");
    assert_eq!(
        ctl::list(MessageBody::ServiceList { services: vec![] }).unwrap(),
        "No services configured.\n"
    );
}

#[test]
fn commands_print_what_was_done() {
    assert_eq!(ctl::start("a", MessageBody::Ack).unwrap(), "Starting service 'a'...\n");
    assert_eq!(ctl::stop("a", MessageBody::Ack).unwrap(), "Stopping service 'a'...\n");
    assert_eq!(ctl::restart("a", MessageBody::Ack).unwrap(), "Restarting service 'a'...\n");
    assert_eq!(ctl::shutdown_kind("off"), Ok(ShutdownKind::Poweroff));
    assert_eq!(
        ctl::shutdown_kind("nap").unwrap_err(),
        "unknown shutdown kind: nap (use poweroff, reboot, or halt)"
    );
    assert_eq!(ctl::shutdown("reboot", MessageBody::Ack).unwrap(), "System reboot initiated.\n");
    let info = MessageBody::ServiceInfo {
        name: "a".to_string(),
        status: "running".to_string(),
        pid: Some(5),
        supervisor: "root".to_string(),
    };
    assert_eq!(
        ctl::status(info).unwrap(),
        "Service: a\n  Status:     running\n  PID:        5\n  Supervisor: root\n"
    );
    assert_eq!(ctl::tree(MessageBody::Ack).unwrap_err(), "unexpected response");
    assert_eq!(ctl::reload(MessageBody::Heartbeat).unwrap_err(), "unexpected response");
}
