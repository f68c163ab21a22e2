use dynamod::names::NameMap;
use dynamod::svmgr::cgroup::hierarchy::{
    create_refused, write_refused, CgroupError, CgroupHierarchy,
};
use dynamod::svmgr::cgroup::limits::{
    after_write, apply_limits, bytes_in_range, first_write, parse_bytes, read_stat_field,
    read_usage, WriteStep,
};
use dynamod::svmgr::cgroup::monitor::{CgroupEvent, CgroupMonitor, CgroupReading};
use dynamod::svmgr::config::service::{
    default_delay, default_max_restart_window, default_max_restarts, default_readiness_timeout,
    default_readiness_type, default_restart_policy, default_service_type, default_stop_signal,
    default_stop_timeout, default_supervisor, duration_in_range, is_definition_file,
    parse_duration_secs, BindMount, CgroupSection, DependencySection, NamespaceSection,
    ReadinessSection, ReadinessType, RestartSection, ServiceDef, ServiceSection, ShutdownSection,
};
use dynamod::svmgr::ipc::init_channel::SendError;
use dynamod::svmgr::namespace::{
    apply_namespaces, describe_namespaces, mkdir_refused, parse_namespace_flags, step_refused,
    NamespaceFlags, NamespaceStep,
};
use dynamod::svmgr::process::monitor::{ExitedChild, ProcessMonitor};
use dynamod::svmgr::process::readiness::{
    connect_result, read_result, receive_result, run_result, FdRead, Probe, ReadinessResult,
    ReadinessTracker,
};
use dynamod::svmgr::process::spawn::{
    drop_privileges, log_datagram, prepare_spawn, resolve_group, resolve_user, Lookup,
    PrivilegeStep, SpawnError,
};
use dynamod::time::{Duration, Instant};

const NOW: Instant = Instant { nanos: 5_000_000_000_000 };

fn service(name: &str, command: &[&str]) -> ServiceDef {
    ServiceDef {
        service: ServiceSection {
            name: name.to_string(),
            supervisor: default_supervisor(),
            command: command.iter().map(|s| s.to_string()).collect(),
            workdir: None,
            service_type: default_service_type(),
            environment: NameMap::new(),
            environment_file: None,
            user: None,
        },
        restart: RestartSection {
            policy: default_restart_policy(),
            delay: default_delay(),
            max_restarts: default_max_restarts(),
            max_restart_window: default_max_restart_window(),
        },
        readiness: ReadinessSection {
            readiness_type: default_readiness_type(),
            port: None,
            check_exec: None,
            timeout: default_readiness_timeout(),
        },
        dependencies: DependencySection {
            required: vec![],
            wants: vec![],
            after: vec![],
            before: vec![],
        },
        cgroup: None,
        namespace: None,
        shutdown: ShutdownSection {
            stop_signal: default_stop_signal(),
            stop_timeout: default_stop_timeout(),
            stop_exec: None,
        },
    }
}

#[test]
fn test_parse_duration() {
    assert_eq!(parse_duration_secs("30s"), Some(30));
    assert_eq!(parse_duration_secs("5m"), Some(300));
    assert_eq!(parse_duration_secs("1h"), Some(3600));
    assert_eq!(parse_duration_secs("60"), Some(60));
}

#[test]
fn odd_durations_are_refused() {
    assert_eq!(parse_duration_secs("soon"), None);
    assert_eq!(parse_duration_secs(""), None);
    assert!(duration_in_range("18446744073709551615s"));
    assert!(!duration_in_range("18446744073709551615h"));
}

#[test]
fn definitions_are_known_by_their_ending() {
    assert!(is_definition_file("sshd.toml"));
    assert!(!is_definition_file(".toml"));
    assert!(!is_definition_file("sshd.toml.bak"));
}

#[test]
fn test_parse_bytes() {
    assert_eq!(parse_bytes("512M"), (512 * 1024 * 1024).to_string());
    assert_eq!(parse_bytes("2G"), (2 * 1024 * 1024 * 1024u64).to_string());
    assert_eq!(parse_bytes("1024K"), (1024 * 1024).to_string());
    assert_eq!(parse_bytes("max"), "max");
    assert_eq!(parse_bytes("1048576"), "1048576");
}

#[test]
fn sizes_beyond_the_range_are_told() {
    assert!(bytes_in_range("16G"));
    assert!(!bytes_in_range("18446744073709551615G"));
}

#[test]
fn test_apply_limits_to_tempdir() {
    let config = CgroupSection {
        memory_max: Some("512M".into()),
        memory_high: Some("256M".into()),
        cpu_weight: Some(200),
        cpu_max: Some("200000 100000".into()),
        pids_max: Some(64),
        io_weight: Some(100),
    };
    let writes = apply_limits("/tmp/cg", &config);
    let found: Vec<(&str, &str)> =
        writes.iter().map(|w| (w.path.as_str(), w.value.as_str())).collect();
    assert!(found.contains(&("/tmp/cg/memory.max", "536870912")));
    assert!(found.contains(&("/tmp/cg/memory.high", "268435456")));
    assert!(found.contains(&("/tmp/cg/cpu.weight", "200")));
    assert!(found.contains(&("/tmp/cg/cpu.max", "200000 100000")));
    assert!(found.contains(&("/tmp/cg/pids.max", "64")));
    assert_eq!(found.len(), 6);
}

#[test]
fn first_refused_limit_ends_the_list() {
    let config = CgroupSection {
        memory_max: Some("1K".into()),
        memory_high: None,
        cpu_weight: Some(5),
        cpu_max: None,
        pids_max: Some(7),
        io_weight: None,
    };
    let writes = apply_limits("/cg", &config);
    assert!(matches!(first_write(&writes), WriteStep::Write(0)));
    assert!(matches!(after_write(&writes, 0, None), WriteStep::Write(1)));
    assert!(matches!(after_write(&writes, 2, None), WriteStep::Done));
    let refused = after_write(&writes, 1, Some("EINVAL".to_string()));
    let WriteStep::Failed(e) = refused else { panic!("not refused") };
    assert_eq!(e.message(), "failed to write /cg/cpu.weight: EINVAL");
    assert!(matches!(first_write(&vec![]), WriteStep::Done));
    let e = write_refused(&writes[2], "EIO".to_string());
    assert_eq!(e.message(), "failed to write /cg/pids.max: EIO");
    let e = create_refused("/cg", "EPERM".to_string());
    assert_eq!(e.message(), "failed to create directory /cg: EPERM");
}

#[test]
fn every_descriptor_is_met_once() {
    let mut m = ProcessMonitor::new();
    m.register("a", 1, Some(10));
    m.register("b", 2, None);
    m.register("c", 3, Some(12));
    m.register("a", 4, Some(13));
    assert_eq!(m.pidfd_count(), 2);
    assert_eq!(m.pidfd_at(0), ("a", 13));
    assert_eq!(m.pidfd_at(1), ("c", 12));
    let child = ExitedChild { pid: 4, exit_code: Some(0), signal: None };
    let (name, _, fd) = m.reap(child).unwrap();
    assert_eq!((name.as_str(), fd), ("a", Some(13)));
    assert_eq!(m.pidfd_count(), 1);
    assert_eq!(m.pidfd_at(0), ("c", 12));
    assert_eq!(m.unregister("b"), None);
    assert_eq!(m.pidfd_count(), 1);
}

#[test]
fn test_service_path() {
    let hierarchy = CgroupHierarchy::init_at("/tmp/cgroup/dynamod");
    assert_eq!(hierarchy.service_path("nginx"), "/tmp/cgroup/dynamod/nginx");
    assert_eq!(hierarchy.root(), "/tmp/cgroup/dynamod");
    let w = hierarchy.add_process("nginx", 12);
    assert_eq!(w.path, "/tmp/cgroup/dynamod/nginx/cgroup.procs");
    assert_eq!(w.value, "12");
}

#[test]
fn usage_is_read_from_the_files() {
    let usage = read_usage(
        Some("4096\n"),
        Some("max\n"),
        Some("3\n"),
        Some("usage_usec 77\nuser_usec 50\n"),
    );
    assert_eq!(usage.memory_current, Some(4096));
    assert_eq!(usage.memory_max, Some("max".to_string()));
    assert_eq!(usage.pids_current, Some(3));
    assert_eq!(usage.cpu_usage_usec, Some(77));
    assert_eq!(read_stat_field(Some("oom 1\noom_kill 2\n"), "oom_kill"), Some(2));
    assert_eq!(read_stat_field(None, "oom_kill"), None);
}

#[test]
fn test_monitor_empty() {
    let mut monitor = CgroupMonitor::new();
    assert_eq!(monitor.count(), 0);
    assert!(monitor.poll(&vec![]).is_empty());
}

#[test]
fn test_watch_unwatch() {
    let mut monitor = CgroupMonitor::new();
    monitor.watch("test-svc", "/tmp/nonexistent-cgroup", None);
    assert_eq!(monitor.count(), 1);
    monitor.unwatch("test-svc");
    assert_eq!(monitor.count(), 0);
}

fn nothing() -> CgroupReading {
    CgroupReading { memory_events: None, memory_current: None, memory_high: None }
}

#[test]
fn test_poll_nonexistent_path_no_panic() {
    let mut monitor = CgroupMonitor::new();
    monitor.watch("test-svc", "/tmp/nonexistent-cgroup-xyz", None);
    let events = monitor.poll(&vec![nothing()]);
    assert!(events.is_empty());
}

#[test]
fn unwatching_leaves_the_others_watched() {
    let mut monitor = CgroupMonitor::new();
    monitor.watch("a", "/cg/a", None);
    monitor.watch("b", "/cg/b", None);
    monitor.unwatch("nobody");
    assert_eq!(monitor.count(), 2);
    monitor.watch("c", "/cg/c", None);
    monitor.unwatch("c");
    assert_eq!(monitor.count(), 2);
    assert_eq!(monitor.watched_at(0), ("a", "/cg/a"));
    assert_eq!(monitor.watched_at(1), ("b", "/cg/b"));
    monitor.unwatch("a");
    let mut reading = nothing();
    reading.memory_events = Some("oom_kill 1\n".to_string());
    let events = monitor.poll(&vec![reading]);
    assert_eq!(events.len(), 1);
    assert!(matches!(&events[0], CgroupEvent::OomKill { service_name, .. }
        if service_name == "b"));
}

#[test]
fn each_kill_is_reported_once() {
    let mut monitor = CgroupMonitor::new();
    monitor.watch("svc", "/cg/svc", Some("oom_kill 1\n"));
    assert_eq!(monitor.watched_at(0), ("svc", "/cg/svc"));
    let mut reading = nothing();
    reading.memory_events = Some("low 0\noom_kill 3\n".to_string());
    let events = monitor.poll(&vec![reading.clone()]);
    assert!(matches!(&events[0], CgroupEvent::OomKill { service_name, count }
        if service_name == "svc" && *count == 2));
    assert!(monitor.poll(&vec![reading]).is_empty());
}

#[test]
fn test_parse_namespace_flags() {
    let namespaces: Vec<String> = vec!["pid".into(), "mnt".into(), "net".into()];
    let flags = parse_namespace_flags(&namespaces);
    assert!(flags.pid);
    assert!(flags.mount);
    assert!(flags.net);
    assert!(!flags.uts);
}

#[test]
fn test_empty_namespaces() {
    let flags = parse_namespace_flags(&vec![]);
    assert!(flags.is_empty());
}

#[test]
fn test_describe_namespaces() {
    let config = NamespaceSection {
        enable: vec!["pid".into(), "mnt".into()],
        bind_mounts: vec![],
        private_tmp: false,
        protect_system: None,
    };
    assert_eq!(describe_namespaces(&config), "pid, mnt");

    let empty = NamespaceSection {
        enable: vec![],
        bind_mounts: vec![],
        private_tmp: false,
        protect_system: None,
    };
    assert_eq!(describe_namespaces(&empty), "none");
}

#[test]
fn nothing_is_isolated_without_namespaces() {
    let empty = NamespaceSection {
        enable: vec![],
        bind_mounts: vec![],
        private_tmp: true,
        protect_system: Some("strict".into()),
    };
    assert!(apply_namespaces(&empty).is_empty());
    let mounts = NamespaceSection {
        enable: vec!["mnt".into()],
        bind_mounts: vec![BindMount {
            source: "/srv".into(),
            target: "/mnt".into(),
            writable: true,
        }],
        private_tmp: true,
        protect_system: None,
    };
    assert!(apply_namespaces(&mounts).len() > 2);
}

fn readiness(kind: ReadinessType, port: Option<u16>, check: Option<&str>) -> ReadinessSection {
    ReadinessSection {
        readiness_type: kind,
        port,
        check_exec: check.map(|c| vec![c.to_string()]),
        timeout: "5s".into(),
    }
}

#[test]
fn test_none_readiness_immediate() {
    let config = readiness(ReadinessType::NoCheck, None, None);
    let tracker = ReadinessTracker::new(&config, "test", NOW, false);
    assert!(tracker.is_immediate());
    assert!(matches!(tracker.check(NOW), Probe::Known(ReadinessResult::Ready)));
}

#[test]
fn test_tcp_port_not_ready() {
    let config = readiness(ReadinessType::TcpPort, Some(19999), None);
    let tracker = ReadinessTracker::new(&config, "test", NOW, false);
    assert!(!tracker.is_immediate());
    assert!(matches!(tracker.check(NOW), Probe::Connect(19999)));
    assert!(matches!(connect_result(false), ReadinessResult::NotReady));
    assert!(matches!(connect_result(true), ReadinessResult::Ready));
}

#[test]
fn test_exec_readiness_true() {
    let config = readiness(ReadinessType::Exec, None, Some("true"));
    let tracker = ReadinessTracker::new(&config, "test", NOW, false);
    assert!(matches!(tracker.check(NOW), Probe::Run(c) if c == &vec!["true".to_string()]));
    assert!(matches!(run_result(Ok(true)), ReadinessResult::Ready));
}

#[test]
fn test_exec_readiness_false() {
    let config = readiness(ReadinessType::Exec, None, Some("false"));
    let tracker = ReadinessTracker::new(&config, "test", NOW, false);
    assert!(matches!(tracker.check(NOW), Probe::Run(c) if c == &vec!["false".to_string()]));
    assert!(matches!(run_result(Ok(false)), ReadinessResult::NotReady));
}

#[test]
fn waiting_ends_after_the_timeout() {
    let config = readiness(ReadinessType::TcpPort, Some(1), None);
    let mut tracker = ReadinessTracker::new(&config, "test", NOW, false);
    let late = NOW.after(Duration::from_secs(6));
    assert!(matches!(tracker.check(late), Probe::Known(ReadinessResult::TimedOut)));
    tracker.reset(late);
    assert!(matches!(tracker.check(late), Probe::Connect(1)));
}

#[test]
fn readiness_comes_by_socket_or_descriptor() {
    let config = readiness(ReadinessType::Notify, None, None);
    let tracker = ReadinessTracker::new(&config, "web", NOW, true);
    assert_eq!(
        tracker.notify_socket_path(),
        Some(&"/run/dynamod/notify-web.sock".to_string())
    );
    assert!(matches!(tracker.check(NOW), Probe::Receive));
    assert!(matches!(receive_result(Some("STATUS=x\nREADY=1\n")), ReadinessResult::Ready));
    assert!(matches!(receive_result(Some("STATUS=x")), ReadinessResult::NotReady));
    assert!(matches!(receive_result(None), ReadinessResult::NotReady));
    assert!(matches!(read_result(FdRead::Byte), (ReadinessResult::Ready, _)));
    assert!(matches!(read_result(FdRead::WouldBlock), (ReadinessResult::NotReady, false)));
}

#[test]
fn processes_are_noted_and_forgotten() {
    let mut m = ProcessMonitor::new();
    m.register("web", 10, Some(4));
    m.register("db", 11, None);
    assert_eq!(m.service_for_pid(10), Some("web"));
    assert_eq!(m.pid_for_service("db"), Some(11));
    assert_eq!(m.pidfd_count(), 1);
    assert_eq!(m.pidfd_at(0), ("web", 4));
    assert_eq!(m.unregister("web"), Some(4));
    assert!(!m.is_running("web"));
    assert_eq!(m.count(), 1);
    let gone = m.reap(ExitedChild { pid: 11, exit_code: Some(0), signal: None }).unwrap();
    assert_eq!(gone.0, "db");
    assert_eq!(gone.2, None);
    assert_eq!(m.count(), 0);
    assert!(m.reap(ExitedChild { pid: 12, exit_code: None, signal: Some(9) }).is_none());
}

#[test]
fn environment_of_a_service() {
    let mut def = service("web", &["/bin/web", "-v"]);
    def.service.environment.insert("MODE".to_string(), "fast".to_string());
    def.service.environment_file = Some("/etc/default/web".to_string());
    let mut inherited = NameMap::new();
    inherited.insert("PATH".to_string(), "/bin".to_string());
    let plan = match prepare_spawn(&def, inherited, Some("# note\nMODE=slow\nX=1\n"), None) {
        Ok(p) => p,
        Err(e) => panic!("{e:?}"),
    };
    assert_eq!(plan.args, vec!["/bin/web", "-v"]);
    assert!(plan.env.contains(&"PATH=/bin".to_string()));
    assert!(plan.env.contains(&"X=1".to_string()));
    let modes: Vec<&String> = plan.env.iter().filter(|e| e.starts_with("MODE=")).collect();
    assert_eq!(modes, vec!["MODE=fast"]);
    let empty = service("web", &[]);
    assert!(matches!(
        prepare_spawn(&empty, NameMap::new(), None, None),
        Err(SpawnError::EmptyExec)
    ));
}

#[test]
fn output_goes_to_the_log() {
    assert_eq!(log_datagram("web", "hello"), Some("web\thello".to_string()));
    assert_eq!(log_datagram("web", ""), None);
}

#[test]
fn users_are_resolved_by_name_or_number() {
    let found = Lookup::Found { id: 33, group: Some(34) };
    assert_eq!(resolve_user("www", found), Ok((33, Some(34))));
    assert_eq!(resolve_user("1000", Lookup::Missing).unwrap().0, 1000);
    assert!(resolve_user("ghost", Lookup::Missing).is_err());
    assert!(resolve_group("ghost", Lookup::Missing, false).is_err());
}

#[test]
fn user_changes_after_the_groups() {
    let steps = drop_privileges(vec![5, 6], None, Some((33, Some(34))));
    assert_eq!(steps.len(), 3);
    assert!(matches!(&steps[0], PrivilegeStep::SetGroups(g) if g == &vec![5, 6]));
    assert!(matches!(steps[1], PrivilegeStep::SetGid(34)));
    assert!(matches!(steps[2], PrivilegeStep::SetUid(33)));
}

#[test]
fn refused_steps_name_what_was_mounted() {
    let told = |step: NamespaceStep| match step_refused(&step, "EPERM".to_string()) {
        Ok(()) => String::new(),
        Err(e) => e.message(),
    };
    assert_eq!(told(NamespaceStep::Unshare(NamespaceFlags::empty())), "unshare failed: EPERM");
    assert_eq!(
        mkdir_refused("/srv/data", "EROFS".to_string()).message(),
        "mkdir failed for /srv/data: EROFS"
    );
    assert_eq!(told(NamespaceStep::MakePrivate), "mount failed for /: EPERM");
    assert_eq!(told(NamespaceStep::ReadOnlyRoot), "mount failed for / (read-only): EPERM");
    assert_eq!(told(NamespaceStep::ReadOnlyTree("/usr".to_string())), "");
    assert_eq!(told(NamespaceStep::PrivateTmp), "mount failed for /tmp: EPERM");
    let bind = NamespaceStep::Bind { source: "/srv".to_string(), target: "/mnt".to_string() };
    assert_eq!(told(bind), "mount failed for /mnt: EPERM");
    let frozen = NamespaceStep::BindReadOnly { target: "/mnt".to_string() };
    assert_eq!(told(frozen), "mount failed for /mnt (readonly): EPERM");
    assert_eq!(told(NamespaceStep::RemountProc), "mount failed for /proc: EPERM");
}

#[test]
fn errors_in_words() {
    assert_eq!(SpawnError::EmptyExec.message(), "exec command is empty");
    assert_eq!(SpawnError::Fork("EAGAIN".to_string()).message(), "fork failed: EAGAIN");
    assert_eq!(SpawnError::Exec("ENOENT".to_string()).message(), "exec failed: ENOENT");
    assert_eq!(SpawnError::InvalidPath("a".to_string()).message(), "invalid path: a");
    assert_eq!(SpawnError::PidfdOpen("e".to_string()).message(), "pidfd_open failed: e");
    assert_eq!(SendError::Encode("e".to_string()).message(), "encode error: e");
    assert_eq!(SendError::Io("e".to_string()).message(), "I/O error: e");
    let (p, e) = ("/c".to_string(), "EIO".to_string());
    assert_eq!(
        CgroupError::CreateDir(p.clone(), e.clone()).message(),
        "failed to create directory /c: EIO"
    );
    assert_eq!(
        CgroupError::RemoveDir(p.clone(), e.clone()).message(),
        "failed to remove directory /c: EIO"
    );
    assert_eq!(CgroupError::WriteFile(p.clone(), e.clone()).message(), "failed to write /c: EIO");
    assert_eq!(CgroupError::ReadFile(p, e).message(), "failed to read /c: EIO");
}
