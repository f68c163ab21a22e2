use dynamod::common::protocol::{Message, MessageBody, MessageKind, ShutdownKind};
use dynamod::names::NameMap;
use dynamod::svmgr::cgroup::monitor::CgroupMonitor;
use dynamod::svmgr::config::service::{
    default_delay, default_max_restart_window, default_max_restarts, default_readiness_timeout,
    default_readiness_type, default_service_type, default_stop_signal, default_stop_timeout,
    DependencySection, ReadinessSection, ReadinessType, RestartPolicy, RestartSection, ServiceDef,
    ServiceSection, ShutdownSection,
};
use dynamod::svmgr::config::supervisor::{
    default_max_restarts as supervisor_max_restarts, RestartStrategy, SupervisorDef,
    SupervisorRestartSection, SupervisorSection,
};
use dynamod::svmgr::config::validate::{validate_all, validate_service, ValidationError};
use dynamod::svmgr::dependency::graph::DependencyGraph;
use dynamod::svmgr::ipc::control::{handle_request, respond, ControlAction};
use dynamod::svmgr::manager::{
    build_tree, handle_child_exit, restart_delay, start_worker, stop_children, stop_worker,
    windows_in_range, StartFollowUp,
};
use dynamod::svmgr::shutdown::{
    asked, execute_shutdown, finalize_stop, killed, mark_stopping, parse_signal, stop_command,
    stop_plan, stop_step, StopSignal, StopStep, WaitEvent,
};
use dynamod::svmgr::supervisor::groups::{workers_to_start, workers_to_stop};
use dynamod::svmgr::supervisor::intensity::RestartIntensity;
use dynamod::svmgr::supervisor::lifecycle::{ExitInfo, ServiceState};
use dynamod::svmgr::supervisor::strategy::{apply_strategy, escalate_failure};
use dynamod::svmgr::supervisor::tree::{SupervisorTree, TreeError, TreeNode};
use dynamod::time::{Duration, Instant};

const NOW: Instant = Instant { nanos: 1_000_000_000_000 };

fn service(name: &str, supervisor: &str, policy: RestartPolicy) -> ServiceDef {
    ServiceDef {
        service: ServiceSection {
            name: name.to_string(),
            supervisor: supervisor.to_string(),
            command: vec!["/bin/true".to_string()],
            workdir: None,
            service_type: default_service_type(),
            environment: NameMap::new(),
            environment_file: None,
            user: None,
        },
        restart: RestartSection {
            policy,
            delay: default_delay(),
            max_restarts: default_max_restarts(),
            max_restart_window: default_max_restart_window(),
        },
        readiness: ReadinessSection {
            readiness_type: default_readiness_type(),
            port: None,
            check_exec: None,
            timeout: default_readiness_timeout(),
        },
        dependencies: DependencySection {
            required: vec![],
            wants: vec![],
            after: vec![],
            before: vec![],
        },
        cgroup: None,
        namespace: None,
        shutdown: ShutdownSection {
            stop_signal: default_stop_signal(),
            stop_timeout: default_stop_timeout(),
            stop_exec: None,
        },
    }
}

fn supervisor(name: &str, parent: Option<&str>) -> SupervisorDef {
    SupervisorDef {
        supervisor: SupervisorSection {
            name: name.to_string(),
            parent: parent.map(|p| p.to_string()),
            strategy: RestartStrategy::OneForOne,
        },
        restart: SupervisorRestartSection {
            max_restarts: supervisor_max_restarts(),
            max_restart_window: "300s".to_string(),
        },
    }
}

fn intensity(n: u32) -> RestartIntensity {
    RestartIntensity::new(n, Duration::from_secs(60))
}

#[test]
fn test_under_threshold() {
    let mut intensity = RestartIntensity::new(3, Duration::from_secs(60));
    let now = NOW;
    assert!(!intensity.record_restart_at(now));
    assert!(!intensity.record_restart_at(now));
    assert!(!intensity.record_restart_at(now));
    assert_eq!(intensity.current_count(), 3);
}

#[test]
fn test_exceeds_threshold() {
    let mut intensity = RestartIntensity::new(3, Duration::from_secs(60));
    let now = NOW;
    assert!(!intensity.record_restart_at(now));
    assert!(!intensity.record_restart_at(now));
    assert!(!intensity.record_restart_at(now));
    assert!(intensity.record_restart_at(now));
}

#[test]
fn test_old_restarts_evicted() {
    let mut intensity = RestartIntensity::new(2, Duration::from_secs(10));
    let t0 = NOW;
    assert!(!intensity.record_restart_at(t0));
    assert!(!intensity.record_restart_at(t0));
    let t1 = t0.after(Duration::from_secs(15));
    assert!(!intensity.record_restart_at(t1));
    assert_eq!(intensity.current_count(), 1);
}

#[test]
fn test_reset() {
    let mut intensity = RestartIntensity::new(2, Duration::from_secs(60));
    let now = NOW;
    intensity.record_restart_at(now);
    intensity.record_restart_at(now);
    assert_eq!(intensity.current_count(), 2);
    intensity.reset();
    assert_eq!(intensity.current_count(), 0);
}

#[test]
fn restart_at_the_edge_of_the_window_counts() {
    let mut intensity = RestartIntensity::new(1, Duration::from_secs(10));
    assert!(!intensity.record_restart_at(NOW));
    assert!(intensity.record_restart_at(NOW.after(Duration::from_secs(10))));
    assert_eq!(intensity.current_count(), 2);
}

fn make_test_tree() -> SupervisorTree {
    let mut tree = SupervisorTree::new("root", RestartStrategy::OneForOne, intensity(5));
    tree.add_supervisor("network", "root", RestartStrategy::OneForAll, intensity(5)).unwrap();
    tree.add_supervisor("data", "root", RestartStrategy::RestForOne, intensity(5)).unwrap();
    tree
}

#[test]
fn test_tree_structure() {
    let tree = make_test_tree();
    assert_eq!(tree.root_id(), "root");
    assert!(tree.get_supervisor("root").is_some());
    assert!(tree.get_supervisor("network").is_some());
    assert!(tree.get_supervisor("data").is_some());
    assert_eq!(tree.children_of("root"), vec!["network", "data"]);
}

#[test]
fn test_parent_lookup() {
    let tree = make_test_tree();
    assert_eq!(tree.parent_of("network"), Some("root"));
    assert_eq!(tree.parent_of("data"), Some("root"));
    assert_eq!(tree.parent_of("root"), None);
}

#[test]
fn test_duplicate_node_rejected() {
    let mut tree = make_test_tree();
    let result =
        tree.add_supervisor("network", "root", RestartStrategy::OneForOne, intensity(5));
    assert!(result.is_err());
}

#[test]
fn test_pid_registration() {
    let mut tree = make_test_tree();
    tree.add_worker(service("svc1", "root", RestartPolicy::Permanent), "network").unwrap();
    tree.register_pid("svc1", 1234);
    assert_eq!(tree.worker_for_pid(1234), Some("svc1"));
    let removed = tree.unregister_pid(1234);
    assert_eq!(removed, Some("svc1".to_string()));
    assert_eq!(tree.worker_for_pid(1234), None);
}

#[test]
fn parents_must_be_supervisors() {
    let mut tree = make_test_tree();
    tree.add_worker(service("w", "root", RestartPolicy::Permanent), "root").unwrap();
    assert!(matches!(
        tree.add_worker(service("x", "w", RestartPolicy::Permanent), "w"),
        Err(TreeError::ParentIsWorker(_))
    ));
    assert!(matches!(
        tree.add_worker(service("x", "nowhere", RestartPolicy::Permanent), "nowhere"),
        Err(TreeError::ParentNotFound(_))
    ));
    assert!(matches!(
        tree.add_worker(service("w", "root", RestartPolicy::Permanent), "root"),
        Err(TreeError::DuplicateNode(_))
    ));
    assert_eq!(tree.all_workers(), vec!["w"]);
    assert_eq!(tree.node_count(), 4);
}

fn build_test_tree() -> SupervisorTree {
    let mut tree = SupervisorTree::new("root", RestartStrategy::OneForOne, intensity(5));
    tree.add_supervisor("group-all", "root", RestartStrategy::OneForAll, intensity(5)).unwrap();
    tree.add_supervisor("group-rest", "root", RestartStrategy::RestForOne, intensity(5)).unwrap();
    for name in ["svc-a", "svc-b", "svc-c"] {
        tree.add_worker(service(name, "group-all", RestartPolicy::Permanent), "group-all")
            .unwrap();
    }
    for name in ["svc-x", "svc-y", "svc-z"] {
        tree.add_worker(service(name, "group-rest", RestartPolicy::Permanent), "group-rest")
            .unwrap();
    }
    for name in ["svc-a", "svc-b", "svc-c", "svc-x", "svc-y", "svc-z"] {
        if let Some(TreeNode::Worker(w)) = tree.get_mut(name) {
            w.state = ServiceState::Running;
        }
    }
    tree
}

#[test]
fn test_one_for_one() {
    let mut tree = build_test_tree();
    tree.add_worker(service("direct", "root", RestartPolicy::Permanent), "root").unwrap();
    let exit = ExitInfo { exit_code: Some(1), signal: None };
    let action = apply_strategy(&mut tree, "root", "direct", &exit, NOW);
    assert!(!action.supervisor_failed);
    assert!(action.to_stop.is_empty());
    assert_eq!(action.to_start, vec!["direct"]);
}

#[test]
fn test_one_for_all() {
    let mut tree = build_test_tree();
    let exit = ExitInfo { exit_code: Some(1), signal: None };
    let action = apply_strategy(&mut tree, "group-all", "svc-b", &exit, NOW);
    assert!(!action.supervisor_failed);
    assert_eq!(action.to_stop, vec!["svc-c", "svc-b", "svc-a"]);
    assert_eq!(action.to_start, vec!["svc-a", "svc-b", "svc-c"]);
}

#[test]
fn test_rest_for_one() {
    let mut tree = build_test_tree();
    let exit = ExitInfo { exit_code: Some(1), signal: None };
    let action = apply_strategy(&mut tree, "group-rest", "svc-y", &exit, NOW);
    assert!(!action.supervisor_failed);
    assert_eq!(action.to_stop, vec!["svc-z", "svc-y"]);
    assert_eq!(action.to_start, vec!["svc-y", "svc-z"]);
}

#[test]
fn test_temporary_not_restarted() {
    let mut tree = build_test_tree();
    tree.add_worker(service("temp-svc", "root", RestartPolicy::Temporary), "root").unwrap();
    let exit = ExitInfo { exit_code: Some(1), signal: None };
    let action = apply_strategy(&mut tree, "root", "temp-svc", &exit, NOW);
    assert!(action.to_start.is_empty());
    assert!(action.to_stop.is_empty());
}

#[test]
fn test_transient_normal_exit_not_restarted() {
    let mut tree = build_test_tree();
    tree.add_worker(service("trans-svc", "root", RestartPolicy::Transient), "root").unwrap();
    let exit = ExitInfo { exit_code: Some(0), signal: None };
    let action = apply_strategy(&mut tree, "root", "trans-svc", &exit, NOW);
    assert!(action.to_start.is_empty());
}

#[test]
fn test_transient_failure_restarted() {
    let mut tree = build_test_tree();
    tree.add_worker(service("trans-svc2", "root", RestartPolicy::Transient), "root").unwrap();
    let exit = ExitInfo { exit_code: Some(1), signal: None };
    let action = apply_strategy(&mut tree, "root", "trans-svc2", &exit, NOW);
    assert_eq!(action.to_start, vec!["trans-svc2"]);
}

#[test]
fn test_intensity_exceeded_marks_abandoned() {
    let mut tree = SupervisorTree::new("root", RestartStrategy::OneForOne, intensity(2));
    tree.add_worker(service("crasher", "root", RestartPolicy::Permanent), "root").unwrap();
    let exit = ExitInfo { exit_code: Some(1), signal: None };

    let action = apply_strategy(&mut tree, "root", "crasher", &exit, NOW);
    assert!(!action.supervisor_failed);
    assert_eq!(action.to_start, vec!["crasher"]);

    let action = apply_strategy(&mut tree, "root", "crasher", &exit, NOW);
    assert!(!action.supervisor_failed);
    assert_eq!(action.to_start, vec!["crasher"]);

    let action = apply_strategy(&mut tree, "root", "crasher", &exit, NOW);
    assert!(action.supervisor_failed);
    assert!(action.to_start.is_empty());
    assert_eq!(tree.get_worker("crasher").unwrap().state, ServiceState::Abandoned);
}

#[test]
fn failed_group_goes_to_its_parent() {
    let mut tree = build_test_tree();
    let (parent, action) = escalate_failure(&mut tree, "group-all", NOW).unwrap();
    assert_eq!(parent, "root");
    assert!(!action.supervisor_failed);
    assert!(action.to_stop.is_empty());
    assert_eq!(action.to_start, vec!["group-all"]);
    assert!(escalate_failure(&mut tree, "root", NOW).is_none());
}

#[test]
fn failed_groups_go_by_the_strategy_above() {
    for (strategy, to_stop, to_start) in [
        (RestartStrategy::OneForAll, vec!["c", "b", "a"], vec!["a", "b", "c"]),
        (RestartStrategy::RestForOne, vec!["c", "b"], vec!["b", "c"]),
    ] {
        let mut tree = SupervisorTree::new("root", strategy, intensity(5));
        for name in ["a", "b", "c"] {
            tree.add_supervisor(name, "root", RestartStrategy::OneForOne, intensity(1)).unwrap();
        }
        let (parent, action) = escalate_failure(&mut tree, "b", NOW).unwrap();
        assert_eq!(parent, "root");
        assert_eq!(action.to_stop, to_stop);
        assert_eq!(action.to_start, to_start);
    }
}

#[test]
fn parent_without_room_gives_up_too() {
    let mut tree = SupervisorTree::new("root", RestartStrategy::OneForOne, intensity(1));
    tree.add_supervisor("group", "root", RestartStrategy::OneForOne, intensity(1)).unwrap();
    tree.add_worker(service("direct", "root", RestartPolicy::Permanent), "root").unwrap();
    let (_, action) = escalate_failure(&mut tree, "group", NOW).unwrap();
    assert!(!action.supervisor_failed);
    let (parent, action) = escalate_failure(&mut tree, "group", NOW).unwrap();
    assert_eq!(parent, "root");
    assert!(action.supervisor_failed);
    assert_eq!(action.to_stop, vec!["group", "direct"]);
    assert!(action.to_start.is_empty());
    assert_eq!(tree.get_worker("direct").unwrap().state, ServiceState::Abandoned);
}

#[test]
fn temporary_worker_is_not_escalated_into_a_restart() {
    let mut tree = build_test_tree();
    tree.add_worker(service("temp", "root", RestartPolicy::Temporary), "root").unwrap();
    let (parent, action) = escalate_failure(&mut tree, "temp", NOW).unwrap();
    assert_eq!(parent, "root");
    assert!(action.to_start.is_empty());
}

/// A tree of three levels: root, `outer` with `inner` and `o1`, and `inner`
/// with `i1` and `i2`. All four workers run, as the processes 1 to 4.
fn nested_tree(root: u32, outer: u32, inner: u32) -> SupervisorTree {
    let mut tree = SupervisorTree::new("root", RestartStrategy::OneForOne, intensity(root));
    tree.add_supervisor("outer", "root", RestartStrategy::OneForOne, intensity(outer)).unwrap();
    tree.add_supervisor("inner", "outer", RestartStrategy::OneForOne, intensity(inner)).unwrap();
    for (name, group) in [("o1", "outer"), ("i1", "inner"), ("i2", "inner"), ("r1", "root")] {
        tree.add_worker(service(name, group, RestartPolicy::Permanent), group).unwrap();
    }
    for (name, pid) in [("o1", 1), ("i1", 2), ("i2", 3), ("r1", 4)] {
        start_worker(&mut tree, name, Some(pid), false, false);
    }
    tree
}

fn crash() -> ExitInfo {
    ExitInfo { exit_code: Some(1), signal: None }
}

#[test]
fn failure_is_taken_by_the_supervisor_above() {
    let mut tree = nested_tree(3, 3, 0);
    let mut monitor = CgroupMonitor::new();
    monitor.watch("i1", "/cg/i1", None);
    monitor.watch("i2", "/cg/i2", None);
    let outcome = handle_child_exit(&mut tree, 2, crash(), NOW, &mut monitor).unwrap();
    assert_eq!(monitor.count(), 1);
    assert_eq!(monitor.watched_at(0), ("i2", "/cg/i2"));
    assert_eq!(outcome.failed_supervisors, vec!["inner"]);
    assert_eq!(outcome.escalated_to.as_deref(), Some("outer"));
    assert_eq!(outcome.action.to_stop, vec!["i1", "i2"]);
    assert_eq!(outcome.action.to_start, vec!["inner"]);
    assert!(!outcome.action.supervisor_failed);

    // What is left of the group is stopped, and its end asks for nothing more.
    assert_eq!(tree.get_worker("i2").unwrap().state, ServiceState::Abandoned);
    assert_eq!(stop_children(&mut tree, &outcome.action.to_stop), vec![3]);
    assert_eq!(tree.get_worker("i2").unwrap().state, ServiceState::Abandoned);
    let end = ExitInfo { exit_code: None, signal: Some(15) };
    let last = handle_child_exit(&mut tree, 3, end, NOW, &mut monitor).unwrap();
    assert_eq!(monitor.count(), 0);
    assert!(last.failed_supervisors.is_empty());
    assert!(last.action.to_start.is_empty());
    assert_eq!(tree.get_worker("i2").unwrap().state, ServiceState::Abandoned);
    assert_eq!(tree.get_worker("i2").unwrap().pid, None);

    assert_eq!(workers_to_start(&tree, &outcome.action.to_start), vec!["i1", "i2"]);
}

#[test]
fn failure_climbs_past_those_without_room() {
    let mut tree = nested_tree(1, 0, 0);
    let mut monitor = CgroupMonitor::new();
    let outcome = handle_child_exit(&mut tree, 3, crash(), NOW, &mut monitor).unwrap();
    assert_eq!(outcome.failed_supervisors, vec!["inner", "outer"]);
    assert_eq!(outcome.escalated_to.as_deref(), Some("root"));
    assert_eq!(outcome.action.to_stop, vec!["i1", "i2", "inner", "o1"]);
    assert_eq!(outcome.action.to_start, vec!["outer"]);
    assert_eq!(stop_children(&mut tree, &outcome.action.to_stop), vec![2, 1]);
    assert_eq!(workers_to_start(&tree, &outcome.action.to_start), vec!["i1", "i2", "o1"]);
}

#[test]
fn root_without_room_stops_everything() {
    let mut tree = nested_tree(0, 0, 0);
    let mut monitor = CgroupMonitor::new();
    let outcome = handle_child_exit(&mut tree, 2, crash(), NOW, &mut monitor).unwrap();
    assert_eq!(outcome.failed_supervisors, vec!["inner", "outer", "root"]);
    assert_eq!(outcome.escalated_to, None);
    assert!(outcome.action.supervisor_failed);
    assert_eq!(
        outcome.action.to_stop,
        vec!["i1", "i2", "inner", "o1", "outer", "r1"]
    );
    assert!(outcome.action.to_start.is_empty());
    assert_eq!(stop_children(&mut tree, &outcome.action.to_stop), vec![3, 1, 4]);
}

#[test]
fn stopping_a_group_stops_its_workers_the_last_first() {
    let mut tree = nested_tree(5, 5, 5);
    let ids = vec!["outer".to_string(), "r1".to_string()];
    assert_eq!(workers_to_start(&tree, &ids), vec!["i1", "i2", "o1", "r1"]);
    assert_eq!(workers_to_stop(&tree, &ids), vec!["o1", "i2", "i1", "r1"]);
    assert_eq!(stop_children(&mut tree, &ids), vec![1, 3, 2, 4]);
    assert!(matches!(tree.get_worker("i1").unwrap().state, ServiceState::Stopping { .. }));
    assert!(stop_children(&mut tree, &ids).is_empty());
    assert!(workers_to_start(&tree, &vec!["nobody".to_string()]).is_empty());
}

#[test]
fn shutdown_leaves_no_process() {
    let mut tree = nested_tree(5, 5, 5);
    let mut monitor = CgroupMonitor::new();
    let mut defs = Vec::new();
    for (name, after) in [("o1", None), ("i1", Some("o1")), ("i2", Some("i1")), ("r1", None)] {
        let mut def = service(name, "root", RestartPolicy::Permanent);
        def.dependencies.required = after.into_iter().map(String::from).collect();
        defs.push(def);
        monitor.watch(name, "/cg", None);
    }
    let graph = DependencyGraph::build(&defs);
    let order = execute_shutdown(&graph);
    let place = |n: &str| order.iter().position(|x| x == n).unwrap();
    assert!(place("i2") < place("i1") && place("i1") < place("o1"));
    for name in &order {
        let plan = stop_plan(&tree, name).unwrap();
        mark_stopping(&mut tree, name, Some(NOW));
        finalize_stop(&mut tree, name, plan.pid, &mut monitor);
        assert_eq!(tree.worker_for_pid(plan.pid), None);
    }
    for name in ["o1", "i1", "i2", "r1"] {
        assert_eq!(tree.get_worker(name).unwrap().pid, None);
        assert_eq!(tree.get_worker(name).unwrap().state, ServiceState::Stopped);
    }
    assert_eq!(monitor.count(), 0);
}

#[test]
fn exit_of_a_service_restarts_it() {
    let mut tree = build_test_tree();
    tree.add_worker(service("direct", "root", RestartPolicy::Permanent), "root").unwrap();
    assert!(matches!(
        start_worker(&mut tree, "direct", Some(77), false, false),
        StartFollowUp::Nothing
    ));
    assert_eq!(tree.worker_for_pid(77), Some("direct"));
    assert_eq!(stop_worker(&mut tree, "direct"), Some(77));
    let exit = ExitInfo { exit_code: Some(1), signal: None };
    let mut monitor = CgroupMonitor::new();
    let outcome = handle_child_exit(&mut tree, 77, exit, NOW, &mut monitor).unwrap();
    assert_eq!(outcome.worker_id, "direct");
    assert_eq!(outcome.action.to_start, vec!["direct"]);
    assert!(outcome.failed_supervisors.is_empty());
    assert_eq!(tree.worker_for_pid(77), None);
    let exit = ExitInfo { exit_code: Some(1), signal: None };
    assert!(handle_child_exit(&mut tree, 78, exit, NOW, &mut monitor).is_none());
    assert_eq!(restart_delay(&tree, "direct"), Some(1));
}

#[test]
fn tree_is_built_from_definitions() {
    let supervisors = vec![supervisor("network", None), supervisor("inner", Some("network"))];
    assert!(windows_in_range(&supervisors));
    let services = vec![
        service("sshd", "network", RestartPolicy::Permanent),
        service("lost", "nowhere", RestartPolicy::Permanent),
    ];
    let (tree, results) = build_tree(&supervisors, services);
    assert_eq!(tree.parent_of("network"), Some("root"));
    assert_eq!(tree.parent_of("inner"), Some("network"));
    assert_eq!(tree.parent_of("sshd"), Some("network"));
    assert_eq!(tree.parent_of("lost"), Some("root"));
    assert!(results.iter().all(|r| r.is_ok()));
}

#[test]
fn test_validate_empty_exec() {
    let mut def = service("bad", "root", RestartPolicy::Permanent);
    def.service.command = vec![];
    let errors = validate_service(&def);
    assert!(errors.iter().any(|e| matches!(e, ValidationError::EmptyExec(_))));
}

#[test]
fn each_problem_is_reported() {
    let mut port = service("port", "root", RestartPolicy::Permanent);
    port.readiness.readiness_type = ReadinessType::TcpPort;
    assert_eq!(
        validate_service(&port)[0].message(),
        "service 'port': readiness type 'tcp-port' requires a port number"
    );
    let mut check = service("check", "root", RestartPolicy::Permanent);
    check.readiness.readiness_type = ReadinessType::Exec;
    assert_eq!(
        validate_service(&check)[0].message(),
        "service 'check': readiness type 'exec' requires a check-exec command"
    );
    let mut lost = service("lost", "nowhere", RestartPolicy::Permanent);
    lost.dependencies.required = vec!["ghost".to_string()];
    let again = service("lost", "root", RestartPolicy::Permanent);
    let errors = validate_all(
        &[lost, again],
        &[supervisor("net", None), supervisor("net", None)],
    );
    let texts: Vec<String> = errors.iter().map(|e| e.message()).collect();
    assert_eq!(
        texts,
        vec![
            "duplicate service name: 'lost'",
            "duplicate supervisor name: 'net'",
            "service 'lost': references unknown supervisor 'nowhere'",
            "service 'lost': dependency 'ghost' references unknown service",
        ]
    );
    let fine = service("fine", "root", RestartPolicy::Permanent);
    assert!(validate_all(&[fine], &[]).is_empty());
}

#[test]
fn test_parse_signal_names() {
    assert_eq!(parse_signal("SIGTERM"), StopSignal::Term);
    assert_eq!(parse_signal("SIGINT"), StopSignal::Int);
    assert_eq!(parse_signal("SIGHUP"), StopSignal::Hup);
    assert_eq!(parse_signal("unknown"), StopSignal::Term);
}

#[test]
fn service_is_killed_after_its_deadline() {
    let mut tree = make_test_tree();
    tree.add_worker(service("w", "root", RestartPolicy::Permanent), "root").unwrap();
    assert!(stop_plan(&tree, "w").is_none());
    start_worker(&mut tree, "w", Some(9), false, false);
    let plan = stop_plan(&tree, "w").unwrap();
    assert_eq!(plan.pid, 9);
    assert_eq!(plan.signal, StopSignal::Term);
    assert_eq!(plan.timeout, Duration::from_secs(10));
    let later = NOW.after(Duration::from_secs(10));
    assert_eq!(stop_step(asked(NOW, plan.timeout), WaitEvent::StillAlive, NOW), StopStep::Wait);
    assert_eq!(stop_step(asked(NOW, plan.timeout), WaitEvent::StillAlive, later), StopStep::Kill);
    assert_eq!(stop_step(asked(NOW, plan.timeout), WaitEvent::Exited, NOW), StopStep::Finish);
    let much_later = NOW.after(Duration::from_secs(100));
    assert_eq!(stop_step(killed(NOW), WaitEvent::StillAlive, much_later), StopStep::Finish);
}

#[test]
fn stop_command_is_for_running_services() {
    let mut tree = make_test_tree();
    let mut def = service("w", "root", RestartPolicy::Permanent);
    def.shutdown.stop_exec = Some(vec!["/bin/stop".to_string(), "now".to_string()]);
    tree.add_worker(def, "root").unwrap();
    let mut bare = service("v", "root", RestartPolicy::Permanent);
    bare.shutdown.stop_exec = Some(vec![]);
    tree.add_worker(bare, "root").unwrap();
    assert!(stop_command(&tree, "w").is_none());
    start_worker(&mut tree, "w", Some(9), false, false);
    start_worker(&mut tree, "v", Some(10), false, false);
    assert_eq!(stop_command(&tree, "w").unwrap(), vec!["/bin/stop", "now"]);
    assert!(stop_command(&tree, "v").is_none());
    assert!(stop_command(&tree, "nobody").is_none());
}

#[test]
fn tree_errors_name_the_node() {
    let mut tree = make_test_tree();
    let e = tree
        .add_worker(service("w", "root", RestartPolicy::Permanent), "nowhere")
        .unwrap_err();
    assert_eq!(e.message(), "parent not found: 'nowhere'");
    tree.add_worker(service("w", "root", RestartPolicy::Permanent), "root").unwrap();
    let e = tree.add_worker(service("w", "root", RestartPolicy::Permanent), "root").unwrap_err();
    assert_eq!(e.message(), "duplicate node: 'w'");
    let e = tree.add_worker(service("x", "w", RestartPolicy::Permanent), "w").unwrap_err();
    assert_eq!(e.message(), "parent 'w' is a worker, not a supervisor");
}

fn ask(tree: &SupervisorTree, body: MessageBody) -> (MessageBody, Option<ControlAction>) {
    handle_request(body, tree)
}

#[test]
fn requests_about_known_services_are_accepted() {
    let tree = build_test_tree();
    let (answer, action) = ask(&tree, MessageBody::StartService { name: "svc-a".to_string() });
    assert!(matches!(answer, MessageBody::Ack));
    assert!(matches!(action, Some(ControlAction::StartService(n)) if n == "svc-a"));
    let (answer, action) = ask(&tree, MessageBody::StopService { name: "ghost".to_string() });
    assert!(matches!(answer, MessageBody::Error { .. }));
    assert!(action.is_none());
    let (answer, action) = ask(&tree, MessageBody::Shutdown { kind: ShutdownKind::Reboot });
    assert!(matches!(answer, MessageBody::Ack));
    assert!(matches!(action, Some(ControlAction::Shutdown(ShutdownKind::Reboot))));
}

#[test]
fn process_is_traced_to_its_service() {
    let mut tree = build_test_tree();
    start_worker(&mut tree, "svc-a", Some(55), false, false);
    let (answer, action) = ask(&tree, MessageBody::GetServiceByPid { pid: 55 });
    assert!(action.is_none());
    match answer {
        MessageBody::ServiceByPid { name, pid } => {
            assert_eq!(name, Some("svc-a".to_string()));
            assert_eq!(pid, 55);
        }
        other => panic!("expected ServiceByPid, got {other:?}"),
    }
    match ask(&tree, MessageBody::GetServiceByPid { pid: 56 }).0 {
        MessageBody::ServiceByPid { name, .. } => assert!(name.is_none()),
        other => panic!("expected ServiceByPid, got {other:?}"),
    }
}

#[test]
fn answers_carry_the_number_of_the_request() {
    let tree = build_test_tree();
    let request = Message { id: 7, kind: MessageKind::Request, body: MessageBody::ListServices };
    let (response, action) = respond(request, &tree);
    assert!(action.is_none());
    assert_eq!(response.id, 7);
    assert_eq!(response.kind, MessageKind::Response { in_reply_to: 7 });
    match response.body {
        MessageBody::ServiceList { services } => assert_eq!(services.len(), 6),
        other => panic!("expected ServiceList, got {other:?}"),
    }
}

#[test]
fn tree_is_drawn_with_its_states() {
    let tree = build_test_tree();
    match ask(&tree, MessageBody::TreeStatus).0 {
        MessageBody::Tree { text } => {
            assert!(text.contains("group-all"));
            assert!(text.contains("svc-z"));
        }
        other => panic!("expected Tree, got {other:?}"),
    }
}
