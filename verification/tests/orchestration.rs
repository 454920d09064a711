use edgeless::affinity_level::AffinityLevel;
use edgeless::capabilities::NodeCapabilities;
use edgeless::deployment_requirements::DeploymentRequirements;
use edgeless::orchestration_logic::{pick_weighted_node, OrchestrationLogic, OrchestrationStrategy};
use edgeless::requests::{
    ClientDesc, FunctionClassSpecification, ResourceProvider, SpawnFunctionRequest, StatePolicy, StateSpecification,
};

fn new_id() -> u128 {
    uuid::Uuid::new_v4().as_u128()
}

fn make_spawn_function_request(class_id: &str) -> SpawnFunctionRequest {
    SpawnFunctionRequest {
        spec: FunctionClassSpecification {
            id: class_id.to_string(),
            function_type: "RUST_WASM".to_string(),
            version: "0.1".to_string(),
            binary: Some("function_code".as_bytes().to_vec()),
            code: None,
            outputs: vec![],
        },
        annotations: vec![],
        state_specification: StateSpecification { state_id: new_id(), state_policy: StatePolicy::NodeLocal },
        workflow_id: "workflow_1".to_string(),
        replication_factor: Some(1),
    }
}

fn make_client_desc(label: &str) -> ClientDesc {
    let mut capabilities = NodeCapabilities::minimum();
    capabilities.labels.push(label.to_string());
    ClientDesc { agent_url: "".to_string(), invocation_url: "".to_string(), capabilities, cordoned: false }
}

fn same_requirements(a: &DeploymentRequirements, b: &DeploymentRequirements) -> bool {
    a.max_instances == b.max_instances
        && a.node_id_match_any == b.node_id_match_any
        && a.label_match_all == b.label_match_all
        && a.resource_match_all == b.resource_match_all
        && a.tee == b.tee
        && a.tpm == b.tpm
}

#[test]
fn test_orchestration_logic_is_node_feasible() {
    let node_id = new_id();
    let mut reqs = DeploymentRequirements::none();
    let mut caps = NodeCapabilities::minimum();
    let mut providers: Vec<String> = vec![];
    let mut runtime = "RUST_WASM".to_string();

    // Empty requirements
    assert!(OrchestrationLogic::is_node_feasible(&runtime, &reqs, node_id, &caps, &providers));

    // Match any node_id
    reqs.node_id_match_any.push(node_id);
    assert!(OrchestrationLogic::is_node_feasible(&runtime, &reqs, node_id, &caps, &providers));

    reqs.node_id_match_any.push(new_id());
    assert!(OrchestrationLogic::is_node_feasible(&runtime, &reqs, node_id, &caps, &providers));

    reqs.node_id_match_any.clear();
    reqs.node_id_match_any.push(new_id());
    assert!(!OrchestrationLogic::is_node_feasible(&runtime, &reqs, node_id, &caps, &providers));
    reqs.node_id_match_any.clear();

    // Match all labels
    reqs.label_match_all.push("red".to_string());
    caps.labels.push("green".to_string());
    assert!(!OrchestrationLogic::is_node_feasible(&runtime, &reqs, node_id, &caps, &providers));

    caps.labels.push("red".to_string());
    assert!(OrchestrationLogic::is_node_feasible(&runtime, &reqs, node_id, &caps, &providers));

    reqs.label_match_all.push("blue".to_string());
    assert!(!OrchestrationLogic::is_node_feasible(&runtime, &reqs, node_id, &caps, &providers));

    caps.labels.push("blue".to_string());
    assert!(OrchestrationLogic::is_node_feasible(&runtime, &reqs, node_id, &caps, &providers));

    // Match all providers
    reqs.resource_match_all.push("file-1".to_string());
    assert!(!OrchestrationLogic::is_node_feasible(&runtime, &reqs, node_id, &caps, &providers));

    providers.push("file-1".to_string());
    assert!(OrchestrationLogic::is_node_feasible(&runtime, &reqs, node_id, &caps, &providers));

    providers.push("file-2".to_string());
    providers.push("file-3".to_string());
    assert!(OrchestrationLogic::is_node_feasible(&runtime, &reqs, node_id, &caps, &providers));

    reqs.resource_match_all.push("file-9".to_string());
    assert!(!OrchestrationLogic::is_node_feasible(&runtime, &reqs, node_id, &caps, &providers));

    providers.push("file-9".to_string());
    assert!(OrchestrationLogic::is_node_feasible(&runtime, &reqs, node_id, &caps, &providers));

    // Match TEE and TPM
    reqs.tee = AffinityLevel::Required;
    assert!(!OrchestrationLogic::is_node_feasible(&runtime, &reqs, node_id, &caps, &providers));
    caps.is_tee_running = true;
    assert!(OrchestrationLogic::is_node_feasible(&runtime, &reqs, node_id, &caps, &providers));

    reqs.tpm = AffinityLevel::Required;
    assert!(!OrchestrationLogic::is_node_feasible(&runtime, &reqs, node_id, &caps, &providers));
    caps.has_tpm = true;
    assert!(OrchestrationLogic::is_node_feasible(&runtime, &reqs, node_id, &caps, &providers));

    // Match runtime
    runtime = "CONTAINER".to_string();
    assert!(!OrchestrationLogic::is_node_feasible(&runtime, &reqs, node_id, &caps, &providers));
    runtime = "".to_string();
    assert!(!OrchestrationLogic::is_node_feasible(&runtime, &reqs, node_id, &caps, &providers));
}

#[test]
fn test_orc_deployment_requirements() {
    let no_reqs = DeploymentRequirements::none();

    let empty_annotations: Vec<(String, String)> = vec![];
    assert!(same_requirements(&no_reqs, &DeploymentRequirements::from_annotations(&empty_annotations)));

    let irrelevant_annotations = vec![("foo".to_string(), "bar".to_string()), ("mickey".to_string(), "mouse".to_string())];
    assert!(same_requirements(&no_reqs, &DeploymentRequirements::from_annotations(&irrelevant_annotations)));

    let uuid1 = uuid::Uuid::new_v4();
    let uuid2 = uuid::Uuid::new_v4();
    let valid_annotations = vec![
        ("max_instances".to_string(), "42".to_string()),
        ("node_id_match_any".to_string(), format!("{},{}", uuid1, uuid2)),
        ("label_match_all".to_string(), "red,blue".to_string()),
        ("resource_match_all".to_string(), "file,redis".to_string()),
        ("tee".to_string(), "REQuired".to_string()),
        ("tpm".to_string(), "required".to_string()),
    ];
    let reqs = DeploymentRequirements::from_annotations(&valid_annotations);
    assert_eq!(42, reqs.max_instances);
    assert_eq!(vec![uuid1.as_u128(), uuid2.as_u128()], reqs.node_id_match_any);
    assert_eq!(vec!["red".to_string(), "blue".to_string()], reqs.label_match_all);
    assert_eq!(vec!["file".to_string(), "redis".to_string()], reqs.resource_match_all);
    assert!(AffinityLevel::Required == reqs.tee);
    assert!(AffinityLevel::Required == reqs.tpm);
}

#[test]
fn test_orc_feasible_nodes() {
    let mut logic = OrchestrationLogic::new(OrchestrationStrategy::Random);

    // No nodes
    let mut fun1_req = make_spawn_function_request("fun");

    assert!(logic.feasible_nodes(&fun1_req, &vec![]).is_empty());
    assert!(logic.feasible_nodes(&fun1_req, &vec![new_id(), new_id(), new_id()]).is_empty());

    // Add nodes
    let mut client_descs: Vec<(u128, ClientDesc)> = vec![];
    for node_i in 0..5 {
        client_descs.push((new_id(), make_client_desc(if node_i == 0 { "stable" } else { "unstable" })));
    }
    let no_providers: Vec<(String, ResourceProvider)> = vec![];
    logic.update_nodes(&client_descs, &no_providers);
    let all_nodes = client_descs.iter().map(|(id, _)| *id).collect::<Vec<u128>>();
    assert!(client_descs.len() == 5);

    // No annotations, all nodes are good
    assert_eq!(5, logic.feasible_nodes(&fun1_req, &all_nodes).len());

    // Pin-point to a node.
    fun1_req
        .annotations
        .push(("node_id_match_any".to_string(), uuid::Uuid::from_u128(*all_nodes.first().unwrap()).to_string()));

    // Wrong run-time
    fun1_req.spec.function_type = "non-existing-runtime".to_string();
    assert!(logic.feasible_nodes(&fun1_req, &all_nodes).is_empty());
}

#[test]
fn feasible_nodes_follow_the_pinned_node() {
    let mut logic = OrchestrationLogic::new(OrchestrationStrategy::Random);
    let mut fun_req = make_spawn_function_request("fun");
    let client_descs: Vec<(u128, ClientDesc)> = (0..4).map(|_| (new_id(), make_client_desc("any"))).collect();
    logic.update_nodes(&client_descs, &vec![]);
    let all_nodes = client_descs.iter().map(|(id, _)| *id).collect::<Vec<u128>>();
    fun_req.annotations.push(("node_id_match_any".to_string(), uuid::Uuid::from_u128(all_nodes[2]).to_string()));
    assert_eq!(vec![all_nodes[2]], logic.feasible_nodes(&fun_req, &all_nodes));
    // The selection can only pick that node.
    for _ in 0..10 {
        assert_eq!(Some(all_nodes[2]), logic.next(&fun_req));
    }
}

#[test]
fn round_robin_visits_nodes_in_order() {
    let mut logic = OrchestrationLogic::new(OrchestrationStrategy::RoundRobin);
    let fun_req = make_spawn_function_request("fun");
    let client_descs: Vec<(u128, ClientDesc)> = (0..3).map(|_| (new_id(), make_client_desc("any"))).collect();
    logic.update_nodes(&client_descs, &vec![]);
    let ids = client_descs.iter().map(|(id, _)| *id).collect::<Vec<u128>>();
    assert_eq!(Some(ids[0]), logic.next(&fun_req));
    assert_eq!(Some(ids[1]), logic.next(&fun_req));
    assert_eq!(Some(ids[2]), logic.next(&fun_req));
    assert_eq!(Some(ids[0]), logic.next(&fun_req));
    // Excluding the next one gives the one after among the others.
    assert_eq!(Some(ids[2]), logic.next_excluding(&fun_req, &vec![ids[1]]));
}

#[test]
fn no_node_no_selection() {
    let mut logic = OrchestrationLogic::new(OrchestrationStrategy::Random);
    let fun_req = make_spawn_function_request("fun");
    assert_eq!(None, logic.next(&fun_req));
    assert_eq!(None, logic.next_excluding(&fun_req, &vec![]));
}

#[test]
fn cordoned_nodes_are_not_selected() {
    let mut logic = OrchestrationLogic::new(OrchestrationStrategy::Random);
    let fun_req = make_spawn_function_request("fun");
    let mut cordoned = make_client_desc("any");
    cordoned.cordoned = true;
    let a = new_id();
    let b = new_id();
    logic.update_nodes(&vec![(a, cordoned), (b, make_client_desc("any"))], &vec![]);
    for _ in 0..10 {
        assert_eq!(Some(b), logic.next(&fun_req));
    }
    assert_eq!(None, logic.next_excluding(&fun_req, &vec![b]));
}

#[test]
fn weighted_pick_follows_cumulative_weights() {
    let weights: Vec<u64> = vec![2, 3, 5];
    assert_eq!(0, edgeless::orchestration_logic::weighted_pick(&weights, 0));
    assert_eq!(0, edgeless::orchestration_logic::weighted_pick(&weights, 1));
    assert_eq!(1, edgeless::orchestration_logic::weighted_pick(&weights, 2));
    assert_eq!(1, edgeless::orchestration_logic::weighted_pick(&weights, 4));
    assert_eq!(2, edgeless::orchestration_logic::weighted_pick(&weights, 5));
    assert_eq!(2, edgeless::orchestration_logic::weighted_pick(&weights, 9));
}

#[test]
fn weighted_pick_of_a_draw() {
    let candidates = vec![10u128, 20, 30];
    let weights = vec![3u64, 1, 2];
    let picks: Vec<u128> = (0..6).map(|d| pick_weighted_node(&candidates, &weights, d)).collect();
    assert_eq!(vec![10, 10, 10, 20, 30, 30], picks);
}
