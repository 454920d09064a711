use edgeless::active_instance::ActiveInstance;
use edgeless::capabilities::NodeCapabilities;
use edgeless::deploy_intent::DeployIntent;
use edgeless::proxy::Category;
use edgeless::proxy_local::{
    cutoff_before_now, FunctionLogEntry, Instance, NodeHealthStatus, NodePerformanceSamples, ProxyLocal, Sample,
    Timestamp,
};
use edgeless::requests::{
    ClientDesc, FunctionClassSpecification, InstanceId, ResourceInstanceSpecification, ResourceProvider,
    SpawnFunctionRequest, StatePolicy, StateSpecification,
};
use edgeless::settings::DomainInfo;

fn new_id() -> u128 {
    uuid::Uuid::new_v4().as_u128()
}

fn lookup<'a, V>(v: &'a [(u128, V)], k: u128) -> Option<&'a V> {
    v.iter().find(|p| p.0 == k).map(|p| &p.1)
}

fn lookup_name<'a, V>(v: &'a [(String, V)], k: &str) -> Option<&'a V> {
    v.iter().find(|p| p.0 == k).map(|p| &p.1)
}

fn health() -> NodeHealthStatus {
    NodeHealthStatus {
        mem_free: 1000,
        mem_used: 2000,
        mem_available: 3000,
        proc_cpu_usage: 50,
        proc_memory: 100,
        proc_vmemory: 200,
        load_avg_1: 1,
        load_avg_5: 2,
        load_avg_15: 3,
        tot_rx_bytes: 1000,
        tot_rx_pkts: 10,
        tot_rx_errs: 0,
        tot_tx_bytes: 2000,
        tot_tx_pkts: 20,
        tot_tx_errs: 0,
        disk_free_space: 10000,
        disk_tot_reads: 100,
        disk_tot_writes: 200,
        gpu_load_perc: 0,
        gpu_temp_cels: 0,
        active_power: 50,
    }
}

fn function_request(workflow: &str) -> SpawnFunctionRequest {
    SpawnFunctionRequest {
        spec: FunctionClassSpecification {
            id: "test-func".to_string(),
            function_type: "RUST_WASM".to_string(),
            version: "1.0".to_string(),
            binary: None,
            code: None,
            outputs: vec!["out".to_string()],
        },
        annotations: vec![],
        state_specification: StateSpecification { state_id: new_id(), state_policy: StatePolicy::NodeLocal },
        workflow_id: workflow.to_string(),
        replication_factor: Some(2),
    }
}

fn sample(sec: i64, value: &str) -> Sample {
    Sample { timestamp_sec: sec, timestamp_ns: 0, sample: value.to_string() }
}

fn no_samples() -> NodePerformanceSamples {
    NodePerformanceSamples { function_execution_times: vec![], function_transfer_times: vec![], function_log_entries: vec![] }
}

#[test]
fn test_proxy_local_basic() {
    let mut proxy = ProxyLocal::new();

    let domain_info = DomainInfo { domain_id: "test-domain".to_string() };
    proxy.update_domain_info(&domain_info);
    assert_eq!(proxy.fetch_domain_info().domain_id, "test-domain");

    let intents = vec![DeployIntent::Migrate(new_id(), vec![new_id()])];
    proxy.add_deploy_intents(intents);
    let retrieved = proxy.retrieve_deploy_intents();
    assert_eq!(retrieved.len(), 1);

    let retrieved_again = proxy.retrieve_deploy_intents();
    assert_eq!(retrieved_again.len(), 0);
}

#[test]
fn test_proxy_local_active_instances() {
    let mut proxy = ProxyLocal::new();

    let node_id_1 = new_id();
    let node_id_2 = new_id();
    let logical_id = new_id();
    let physical_id_1 = new_id();
    let physical_id_2 = new_id();

    let active_instances = vec![(
        logical_id,
        ActiveInstance::Function(
            function_request("test-workflow"),
            vec![
                (InstanceId { node_id: node_id_1, function_id: physical_id_1 }, true),
                (InstanceId { node_id: node_id_2, function_id: physical_id_2 }, false),
            ],
        ),
    )];
    proxy.update_active_instances(&active_instances);

    let instances_to_nodes = proxy.fetch_function_instances_to_nodes();
    assert_eq!(instances_to_nodes.len(), 1);
    let nodes = lookup(&instances_to_nodes, logical_id).unwrap();
    assert_eq!(nodes.len(), 2);
    assert_eq!(nodes[0].0, node_id_1);
    assert!(nodes[0].1);
    assert_eq!(nodes[1].0, node_id_2);
    assert!(!nodes[1].1);

    let logical_to_physical = proxy.fetch_instances_to_physical_ids();
    assert_eq!(logical_to_physical.len(), 1);
    let physical_ids = lookup(&logical_to_physical, logical_id).unwrap();
    assert_eq!(physical_ids.len(), 2);
    assert_eq!(physical_ids[0].0, physical_id_1);
    assert!(physical_ids[0].1);
    assert_eq!(physical_ids[1].0, physical_id_2);
    assert!(!physical_ids[1].1);

    let workflow_mapping = proxy.fetch_logical_id_to_workflow_id();
    assert_eq!(lookup(&workflow_mapping, logical_id).unwrap(), "test-workflow");
}

#[test]
fn test_proxy_local_health_and_performance() {
    let mut proxy = ProxyLocal::new();
    let node_id = new_id();

    proxy.push_node_health(node_id, health());

    let latest_health = proxy.fetch_node_health();
    assert_eq!(latest_health.len(), 1);
    assert_eq!(lookup(&latest_health, node_id).unwrap().mem_free, 1000);

    let health_history = proxy.fetch_node_healths();
    assert_eq!(health_history.len(), 1);
    assert_eq!(lookup(&health_history, node_id).unwrap().len(), 1);

    let function_id = new_id();
    let samples = NodePerformanceSamples {
        function_execution_times: vec![(function_id, vec![sample(1000, "42")])],
        function_transfer_times: vec![],
        function_log_entries: vec![],
    };
    proxy.push_performance_samples(node_id, &samples);

    let perf_samples = proxy.fetch_performance_samples();
    assert_eq!(perf_samples.len(), 1);
    let func_samples = lookup_name(&perf_samples, &uuid::Uuid::from_u128(function_id).to_string()).unwrap();
    assert!(lookup_name(func_samples, "function_execution_time").is_some());
}

#[test]
fn test_proxy_local_garbage_collection() {
    let mut proxy = ProxyLocal::new();
    let node_id = new_id();

    proxy.push_node_health(node_id, health());

    let health_history = proxy.fetch_node_healths();
    assert_eq!(lookup(&health_history, node_id).unwrap().len(), 1);

    let period = std::time::Duration::from_secs(0);
    proxy.garbage_collection(period.as_secs(), period.subsec_nanos());

    let health_history_after = proxy.fetch_node_healths();
    assert_eq!(lookup(&health_history_after, node_id).unwrap().len(), 0);
}

#[test]
fn health_history_keeps_every_record_and_latest_is_replaced() {
    let mut proxy = ProxyLocal::new();
    let node_id = new_id();
    let mut second = health();
    second.mem_free = 7;
    proxy.push_node_health_at(node_id, health(), Timestamp { sec: 10, ns: 0 });
    proxy.push_node_health_at(node_id, second, Timestamp { sec: 20, ns: 5 });
    let latest = proxy.fetch_node_health();
    assert_eq!(latest.len(), 1);
    assert_eq!(latest[0].1.mem_free, 7);
    let history = proxy.fetch_node_healths();
    assert_eq!(history.len(), 1);
    let records = &history[0].1;
    assert_eq!(records.len(), 2);
    assert_eq!(records[0].0, Timestamp { sec: 10, ns: 0 });
    assert_eq!(records[0].1.mem_free, 1000);
    assert_eq!(records[1].0, Timestamp { sec: 20, ns: 5 });
    assert_eq!(records[1].1.mem_free, 7);
}

#[test]
fn samples_are_grouped_by_function_and_metric() {
    let mut proxy = ProxyLocal::new();
    let node_id = new_id();
    let f1 = new_id();
    let f2 = new_id();
    let now = Timestamp { sec: 5000, ns: 1 };
    let report = NodePerformanceSamples {
        function_execution_times: vec![(f1, vec![sample(1000, "1.5"), sample(1001, "2.5")])],
        function_transfer_times: vec![(f1, vec![sample(1002, "0.25")]), (f2, vec![sample(1003, "3")])],
        function_log_entries: vec![(
            f2,
            vec![
                FunctionLogEntry { timestamp_sec: 1004, timestamp_ns: 3_000_000_000, target: "app".to_string(), message: "hello".to_string() },
                FunctionLogEntry { timestamp_sec: 1005, timestamp_ns: 0, target: "other".to_string(), message: "bye".to_string() },
            ],
        )],
    };
    proxy.push_performance_samples_at(node_id, &report, now);
    // A second report adds after what is there.
    let more = NodePerformanceSamples {
        function_execution_times: vec![(f1, vec![sample(1006, "9")])],
        function_transfer_times: vec![],
        function_log_entries: vec![(f1, vec![])],
    };
    proxy.push_performance_samples_at(node_id, &more, now);

    let all = proxy.fetch_performance_samples();
    assert_eq!(all.len(), 2);
    let f1_text = uuid::Uuid::from_u128(f1).to_string();
    let f2_text = uuid::Uuid::from_u128(f2).to_string();
    assert_eq!(all[0].0, f1_text);
    assert_eq!(all[1].0, f2_text);

    let m1 = &all[0].1;
    assert_eq!(m1.len(), 3);
    assert_eq!(m1[0].0, "function_execution_time");
    let exec: Vec<(i64, &str)> = m1[0].1.iter().map(|p| (p.0.sec, p.1.as_str())).collect();
    assert_eq!(exec, vec![(1000, "1.5"), (1001, "2.5"), (1006, "9")]);
    assert_eq!(m1[1].0, "function_transfer_time");
    assert_eq!(m1[1].1.len(), 1);
    assert_eq!(m1[2].0, "unknown");
    assert!(m1[2].1.is_empty());

    let m2 = &all[1].1;
    assert_eq!(m2.len(), 2);
    assert_eq!(m2[0].0, "function_transfer_time");
    assert_eq!(m2[1].0, "app");
    // The entry whose time chrono refuses is taken at the time given.
    assert_eq!(m2[1].1[0].0, now);
    assert_eq!(m2[1].1[0].1, "hello");
    assert_eq!(m2[1].1[1].0, Timestamp { sec: 1005, ns: 0 });
    assert_eq!(m2[1].1[1].1, "bye");
}

#[test]
fn garbage_collection_keeps_only_later_records() {
    let mut proxy = ProxyLocal::new();
    let node_id = new_id();
    let f = new_id();
    proxy.push_node_health_at(node_id, health(), Timestamp { sec: 100, ns: 0 });
    proxy.push_node_health_at(node_id, health(), Timestamp { sec: 200, ns: 0 });
    let report = NodePerformanceSamples {
        function_execution_times: vec![(f, vec![sample(100, "a"), sample(200, "b"), sample(300, "c")])],
        function_transfer_times: vec![],
        function_log_entries: vec![],
    };
    proxy.push_performance_samples_at(node_id, &report, Timestamp { sec: 0, ns: 0 });
    proxy.garbage_collection_before(Timestamp { sec: 200, ns: 0 });

    let history = proxy.fetch_node_healths();
    assert_eq!(history[0].1.len(), 0);
    let all = proxy.fetch_performance_samples();
    let kept: Vec<&str> = all[0].1[0].1.iter().map(|p| p.1.as_str()).collect();
    assert_eq!(kept, vec!["c"]);
}

#[test]
fn cutoff_is_the_period_before_now() {
    let now = Timestamp { sec: 1000, ns: 500 };
    assert_eq!(cutoff_before_now(now, 0, 0), now);
    assert_eq!(cutoff_before_now(now, 10, 100), Timestamp { sec: 990, ns: 400 });
    assert_eq!(cutoff_before_now(now, 10, 600), Timestamp { sec: 989, ns: 999_999_900 });
    // A period longer than chrono holds counts as none.
    assert_eq!(cutoff_before_now(now, u64::MAX, 0), now);
    assert_eq!(cutoff_before_now(Timestamp { sec: i64::MIN, ns: 0 }, 1, 0), Timestamp { sec: i64::MIN, ns: 0 });
}

#[test]
fn mirrored_state_is_given_back() {
    let mut proxy = ProxyLocal::new();
    let n1 = new_id();
    let n2 = new_id();
    let mut caps = NodeCapabilities::minimum();
    caps.num_cpus = 4;
    let nodes = vec![
        (n1, ClientDesc { agent_url: "a".to_string(), invocation_url: "b".to_string(), capabilities: caps, cordoned: false }),
        (n2, ClientDesc { agent_url: "c".to_string(), invocation_url: "d".to_string(), capabilities: NodeCapabilities::minimum(), cordoned: true }),
    ];
    proxy.update_nodes(&nodes);
    let caps_back = proxy.fetch_node_capabilities();
    assert_eq!(caps_back.len(), 2);
    assert_eq!(caps_back[0].0, n1);
    assert_eq!(caps_back[0].1.num_cpus, 4);
    assert_eq!(caps_back[1].0, n2);

    let providers = vec![("p1".to_string(), ResourceProvider { class_type: "file-log".to_string(), node_id: n1, outputs: vec![] })];
    proxy.update_resource_providers(&providers);
    let back = proxy.fetch_resource_providers();
    assert_eq!(back.len(), 1);
    assert_eq!(back[0].0, "p1");
    assert_eq!(back[0].1.node_id, n1);

    let lid = new_id();
    let graph = vec![(lid, vec![("out".to_string(), new_id())])];
    proxy.update_dependency_graph(&graph);
    let graph_back = proxy.fetch_dependency_graph();
    assert_eq!(graph_back.len(), 1);
    assert_eq!(graph_back[0].0, lid);
    assert_eq!(graph_back[0].1[0].0, "out");
    assert_eq!(graph_back[0].1[0].1, graph[0].1[0].1);

    assert!(proxy.updated(Category::NodeCapabilities));
}

#[test]
fn components_are_listed_by_node() {
    let mut proxy = ProxyLocal::new();
    let n1 = new_id();
    let n2 = new_id();
    let f = new_id();
    let r = new_id();
    let rpid = new_id();
    let active = vec![
        (
            f,
            ActiveInstance::Function(
                function_request("wf"),
                vec![
                    (InstanceId { node_id: n1, function_id: new_id() }, true),
                    (InstanceId { node_id: n2, function_id: new_id() }, false),
                ],
            ),
        ),
        (
            r,
            ActiveInstance::Resource(
                ResourceInstanceSpecification { class_type: "file-log".to_string(), configuration: vec![], workflow_id: "wf-r".to_string() },
                InstanceId { node_id: n1, function_id: rpid },
            ),
        ),
    ];
    proxy.update_active_instances(&active);

    let by_node = proxy.fetch_nodes_to_instances();
    assert_eq!(by_node.len(), 2);
    assert_eq!(by_node[0].0, n1);
    assert_eq!(by_node[0].1, vec![Instance::Function(f), Instance::Resource(r)]);
    assert_eq!(by_node[1].0, n2);
    assert_eq!(by_node[1].1, vec![Instance::Function(f)]);

    let requests = proxy.fetch_function_instance_requests();
    assert_eq!(requests.len(), 1);
    assert_eq!(requests[0].0, f);
    assert_eq!(requests[0].1.workflow_id, "wf");

    let configurations = proxy.fetch_resource_instance_configurations();
    assert_eq!(configurations.len(), 1);
    assert_eq!(configurations[0].0, r);
    assert_eq!(configurations[0].1.class_type, "file-log");

    let resource_nodes = proxy.fetch_resource_instances_to_nodes();
    assert_eq!(resource_nodes, vec![(r, n1)]);

    let physical = proxy.fetch_instances_to_physical_ids();
    assert_eq!(physical[1], (r, vec![(rpid, true)]));

    let workflows = proxy.fetch_logical_id_to_workflow_id();
    assert_eq!(workflows, vec![(f, "wf".to_string()), (r, "wf-r".to_string())]);
}

#[test]
fn no_samples_change_nothing() {
    let mut proxy = ProxyLocal::new();
    proxy.push_performance_samples_at(new_id(), &no_samples(), Timestamp { sec: 0, ns: 0 });
    assert!(proxy.fetch_performance_samples().is_empty());
}

#[test]
fn description_of_a_function_instance() {
    let a = ActiveInstance::Function(
        function_request("wf"),
        vec![(InstanceId { node_id: 1, function_id: 2 }, true), (InstanceId { node_id: 3, function_id: 4 }, false)],
    );
    assert_eq!(
        "function, instances node_id 00000000-0000-0000-0000-000000000001, lid 00000000-0000-0000-0000-000000000002, is_warm true,node_id 00000000-0000-0000-0000-000000000003, lid 00000000-0000-0000-0000-000000000004, is_warm false",
        a.to_text()
    );
}
