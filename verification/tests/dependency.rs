use dynamod::names::{NameMap, NameSet};
use dynamod::svmgr::config::service::{
    default_delay, default_max_restart_window, default_max_restarts, default_readiness_timeout,
    default_readiness_type, default_restart_policy, default_service_type, default_stop_signal,
    default_stop_timeout, default_supervisor, DependencySection, ReadinessSection, RestartSection,
    ServiceDef, ServiceSection, ShutdownSection,
};
use dynamod::svmgr::dependency::cycle::{detect_cycles, validate_no_cycles};
use dynamod::svmgr::dependency::frontier::StartupFrontier;
use dynamod::svmgr::dependency::graph::DependencyGraph;
use dynamod::svmgr::shutdown::{compute_reverse_topo_order, execute_shutdown};

fn strings(v: &[&str]) -> Vec<String> {
    v.iter().map(|s| s.to_string()).collect()
}

fn make_service(name: &str, requires: &[&str], after: &[&str]) -> ServiceDef {
    ServiceDef {
        service: ServiceSection {
            name: name.to_string(),
            supervisor: default_supervisor(),
            command: strings(&["/bin/true"]),
            workdir: None,
            service_type: default_service_type(),
            environment: NameMap::new(),
            environment_file: None,
            user: None,
        },
        restart: RestartSection {
            policy: default_restart_policy(),
            delay: default_delay(),
            max_restarts: default_max_restarts(),
            max_restart_window: default_max_restart_window(),
        },
        readiness: ReadinessSection {
            readiness_type: default_readiness_type(),
            port: None,
            check_exec: None,
            timeout: default_readiness_timeout(),
        },
        dependencies: DependencySection {
            required: strings(requires),
            wants: vec![],
            after: strings(after),
            before: vec![],
        },
        cgroup: None,
        namespace: None,
        shutdown: ShutdownSection {
            stop_signal: default_stop_signal(),
            stop_timeout: default_stop_timeout(),
            stop_exec: None,
        },
    }
}

#[test]
fn test_no_cycles() {
    let defs = vec![
        make_service("a", &[], &[]),
        make_service("b", &["a"], &[]),
        make_service("c", &["b"], &[]),
    ];
    let graph = DependencyGraph::build(&defs);
    assert!(detect_cycles(&graph).is_empty());
    assert!(validate_no_cycles(&graph).is_ok());
}

#[test]
fn test_simple_cycle() {
    let defs = vec![make_service("a", &["b"], &[]), make_service("b", &["a"], &[])];
    let graph = DependencyGraph::build(&defs);
    let cycles = detect_cycles(&graph);
    assert!(!cycles.is_empty());
    assert!(validate_no_cycles(&graph).is_err());
}

#[test]
fn test_three_node_cycle() {
    let defs = vec![
        make_service("a", &["c"], &[]),
        make_service("b", &["a"], &[]),
        make_service("c", &["b"], &[]),
    ];
    let graph = DependencyGraph::build(&defs);
    let cycles = detect_cycles(&graph);
    assert!(!cycles.is_empty());
}

#[test]
fn test_diamond_no_cycle() {
    let defs = vec![
        make_service("a", &[], &[]),
        make_service("b", &["a"], &[]),
        make_service("c", &["a"], &[]),
        make_service("d", &["b", "c"], &[]),
    ];
    let graph = DependencyGraph::build(&defs);
    assert!(detect_cycles(&graph).is_empty());
}

#[test]
fn cycle_error_names_the_services() {
    let defs = vec![make_service("a", &["b"], &[]), make_service("b", &["a"], &[])];
    let graph = DependencyGraph::build(&defs);
    let text = match validate_no_cycles(&graph) {
        Err(e) => e.message(),
        Ok(_) => panic!("expected a cycle"),
    };
    assert!(text.contains("a"));
    assert!(text.contains("b"));
}

#[test]
fn test_independent_services_all_ready() {
    let defs = vec![
        make_service("a", &[], &[]),
        make_service("b", &[], &[]),
        make_service("c", &[], &[]),
    ];
    let graph = DependencyGraph::build(&defs);
    let mut frontier = StartupFrontier::new(&graph);
    let batch = frontier.take_ready();
    assert_eq!(batch.len(), 3);
}

#[test]
fn test_linear_chain() {
    let defs = vec![
        make_service("a", &[], &[]),
        make_service("b", &["a"], &[]),
        make_service("c", &["b"], &[]),
    ];
    let graph = DependencyGraph::build(&defs);
    let mut frontier = StartupFrontier::new(&graph);

    let batch1 = frontier.take_ready();
    assert_eq!(batch1, vec!["a"]);

    frontier.mark_ready("a", &graph);
    let batch2 = frontier.take_ready();
    assert_eq!(batch2, vec!["b"]);

    frontier.mark_ready("b", &graph);
    let batch3 = frontier.take_ready();
    assert_eq!(batch3, vec!["c"]);

    frontier.mark_ready("c", &graph);
    assert!(frontier.is_complete());
}

#[test]
fn test_diamond_parallelism() {
    let defs = vec![
        make_service("a", &[], &[]),
        make_service("b", &["a"], &[]),
        make_service("c", &["a"], &[]),
        make_service("d", &["b", "c"], &[]),
    ];
    let graph = DependencyGraph::build(&defs);
    let mut frontier = StartupFrontier::new(&graph);

    let batch1 = frontier.take_ready();
    assert_eq!(batch1, vec!["a"]);

    frontier.mark_ready("a", &graph);
    let mut batch2 = frontier.take_ready();
    batch2.sort();
    assert_eq!(batch2, vec!["b", "c"]);

    frontier.mark_ready("b", &graph);
    assert!(frontier.take_ready().is_empty());

    frontier.mark_ready("c", &graph);
    let batch3 = frontier.take_ready();
    assert_eq!(batch3, vec!["d"]);

    frontier.mark_ready("d", &graph);
    assert!(frontier.is_complete());
}

#[test]
fn test_failure_blocks_requires_deps() {
    let defs = vec![
        make_service("a", &[], &[]),
        make_service("b", &["a"], &[]),
        make_service("c", &["b"], &[]),
    ];
    let graph = DependencyGraph::build(&defs);
    let mut frontier = StartupFrontier::new(&graph);

    frontier.take_ready();
    frontier.mark_failed("a", &graph);

    assert!(frontier.blocked_services().contains("b"));
    assert!(frontier.blocked_services().contains("c"));
    assert!(frontier.take_ready().is_empty());
}

#[test]
fn test_failure_of_after_dep_does_not_block() {
    let defs = vec![make_service("a", &[], &[]), make_service("b", &[], &["a"])];
    let graph = DependencyGraph::build(&defs);
    let mut frontier = StartupFrontier::new(&graph);

    let batch1 = frontier.take_ready();
    assert_eq!(batch1, vec!["a"]);

    frontier.mark_failed("a", &graph);
    let batch2 = frontier.take_ready();
    assert_eq!(batch2, vec!["b"]);
}

#[test]
fn test_mixed_deps_partial_block() {
    let defs = vec![
        make_service("a", &[], &[]),
        make_service("b", &["a"], &[]),
        make_service("c", &["a"], &[]),
        make_service("d", &["b"], &["c"]),
    ];
    let graph = DependencyGraph::build(&defs);
    let mut frontier = StartupFrontier::new(&graph);

    frontier.take_ready();
    frontier.mark_ready("a", &graph);
    frontier.take_ready();

    frontier.mark_failed("c", &graph);
    assert!(!frontier.blocked_services().contains("d"));

    frontier.mark_ready("b", &graph);
    let batch = frontier.take_ready();
    assert_eq!(batch, vec!["d"]);
}

#[test]
fn startup_is_over_when_nothing_can_start() {
    let defs = vec![make_service("a", &[], &[]), make_service("b", &["a"], &[])];
    let graph = DependencyGraph::build(&defs);
    let mut frontier = StartupFrontier::new(&graph);
    assert!(!frontier.is_complete());
    assert!(frontier.has_ready());
    frontier.take_ready();
    frontier.mark_failed("a", &graph);
    assert!(!frontier.has_ready());
    assert!(frontier.is_complete());
    assert!(!frontier.ready_services().contains("a"));
}

#[test]
fn test_simple_dependency() {
    let defs = vec![make_service("a", &[], &[]), make_service("b", &["a"], &[])];
    let graph = DependencyGraph::build(&defs);
    assert!(graph.dependencies_of("b").contains("a"));
    assert!(graph.dependents_of("a").contains("b"));
    assert!(graph.dependencies_of("a").is_empty());
}

#[test]
fn test_diamond_dependency() {
    let defs = vec![
        make_service("a", &[], &[]),
        make_service("b", &["a"], &[]),
        make_service("c", &["a"], &[]),
        make_service("d", &["b", "c"], &[]),
    ];
    let graph = DependencyGraph::build(&defs);
    assert_eq!(graph.dependencies_of("d").len(), 2);
    assert!(graph.dependencies_of("d").contains("b"));
    assert!(graph.dependencies_of("d").contains("c"));
    assert_eq!(graph.dependencies_of("a").len(), 0);
}

#[test]
fn test_unmet_count() {
    let defs = vec![
        make_service("a", &[], &[]),
        make_service("b", &["a"], &[]),
        make_service("c", &["a", "b"], &[]),
    ];
    let graph = DependencyGraph::build(&defs);

    let empty = NameSet::new();
    assert_eq!(graph.unmet_count("a", &empty), 0);
    assert_eq!(graph.unmet_count("b", &empty), 1);
    assert_eq!(graph.unmet_count("c", &empty), 2);

    let mut ready = NameSet::new();
    ready.insert("a".to_string());
    assert_eq!(graph.unmet_count("b", &ready), 0);
    assert_eq!(graph.unmet_count("c", &ready), 1);
}

#[test]
fn test_unknown_deps_ignored() {
    let defs = vec![make_service("a", &["nonexistent"], &[])];
    let graph = DependencyGraph::build(&defs);
    assert!(graph.dependencies_of("a").is_empty());
}

#[test]
fn before_and_wants_order_too() {
    let mut first = make_service("first", &[], &[]);
    first.dependencies.before = strings(&["second"]);
    let mut third = make_service("third", &[], &[]);
    third.dependencies.wants = strings(&["second"]);
    let defs = vec![first, make_service("second", &[], &[]), third];
    let graph = DependencyGraph::build(&defs);
    assert!(graph.dependencies_of("second").contains("first"));
    assert!(graph.dependencies_of("third").contains("second"));
    assert!(graph.requires_of("third").is_empty());
    assert!(graph.requires_of("second").is_empty());
}

#[test]
fn test_reverse_topo_order_linear() {
    let defs = vec![
        make_service("a", &[], &[]),
        make_service("b", &["a"], &[]),
        make_service("c", &["b"], &[]),
    ];
    let graph = DependencyGraph::build(&defs);
    let order = compute_reverse_topo_order(&graph);
    let pos_a = order.iter().position(|s| s == "a").unwrap();
    let pos_b = order.iter().position(|s| s == "b").unwrap();
    let pos_c = order.iter().position(|s| s == "c").unwrap();
    assert!(pos_c < pos_b, "c should stop before b");
    assert!(pos_b < pos_a, "b should stop before a");
}

#[test]
fn test_reverse_topo_order_diamond() {
    let defs = vec![
        make_service("a", &[], &[]),
        make_service("b", &["a"], &[]),
        make_service("c", &["a"], &[]),
        make_service("d", &["b", "c"], &[]),
    ];
    let graph = DependencyGraph::build(&defs);
    let order = compute_reverse_topo_order(&graph);
    let pos_a = order.iter().position(|s| s == "a").unwrap();
    let pos_b = order.iter().position(|s| s == "b").unwrap();
    let pos_c = order.iter().position(|s| s == "c").unwrap();
    let pos_d = order.iter().position(|s| s == "d").unwrap();
    assert!(pos_d < pos_b, "d before b");
    assert!(pos_d < pos_c, "d before c");
    assert!(pos_b < pos_a, "b before a");
    assert!(pos_c < pos_a, "c before a");
}

#[test]
fn test_reverse_topo_independent() {
    let defs = vec![
        make_service("x", &[], &[]),
        make_service("y", &[], &[]),
        make_service("z", &[], &[]),
    ];
    let graph = DependencyGraph::build(&defs);
    let order = compute_reverse_topo_order(&graph);
    assert_eq!(order.len(), 3);
}

#[test]
fn services_in_a_cycle_are_stopped_too() {
    let defs = vec![
        make_service("a", &["b"], &[]),
        make_service("b", &["a"], &[]),
        make_service("c", &[], &[]),
    ];
    let graph = DependencyGraph::build(&defs);
    let mut order = execute_shutdown(&graph);
    order.sort();
    assert_eq!(order, vec!["a", "b", "c"]);
}
