use edgeless::active_instance::ActiveInstance;
use edgeless::capabilities::NodeCapabilities;
use edgeless::orchestration_logic::OrchestrationStrategy;
use edgeless::orchestrator::{OrchestratorTask, Pid};
use edgeless::placement::{MigrationError, MigrationPlan, StartVerdict};
use edgeless::requests::{
    ClientDesc, FunctionClassSpecification, InstanceId, PatchRequest, ResourceInstanceSpecification,
    ResourceProviderSpecification, SpawnFunctionRequest, StatePolicy, StateSpecification,
};

fn new_id() -> u128 {
    uuid::Uuid::new_v4().as_u128()
}

fn text_of(id: u128) -> String {
    uuid::Uuid::from_u128(id).to_string()
}

fn spawn_request(class_id: &str, replication_factor: Option<u32>) -> SpawnFunctionRequest {
    SpawnFunctionRequest {
        spec: FunctionClassSpecification {
            id: class_id.to_string(),
            function_type: "RUST_WASM".to_string(),
            version: "0.1".to_string(),
            binary: Some("function_code".as_bytes().to_vec()),
            code: None,
            outputs: vec![],
        },
        annotations: vec![],
        state_specification: StateSpecification { state_id: new_id(), state_policy: StatePolicy::NodeLocal },
        workflow_id: "workflow_1".to_string(),
        replication_factor,
    }
}

fn resource_request(class_type: &str) -> ResourceInstanceSpecification {
    ResourceInstanceSpecification { class_type: class_type.to_string(), configuration: vec![], workflow_id: "workflow_1".to_string() }
}

fn client_desc(label: &str) -> ClientDesc {
    let mut capabilities = NodeCapabilities::minimum();
    capabilities.labels.push(label.to_string());
    ClientDesc { agent_url: "http://node/agent".to_string(), invocation_url: "http://node".to_string(), capabilities, cordoned: false }
}

/// A domain whose first node is "stable" and the others "unstable", each
/// with the given number of resource providers of class "rc-1".
fn domain(num_nodes: usize, providers_per_node: usize, strategy: OrchestrationStrategy) -> (OrchestratorTask, Vec<u128>) {
    let mut task = OrchestratorTask::new(strategy);
    let mut ids = vec![];
    for i in 0..num_nodes {
        let id = new_id();
        let providers = (0..providers_per_node)
            .map(|p| ResourceProviderSpecification {
                provider_id: format!("node-{}-resource-{}-provider", i, p),
                class_type: "rc-1".to_string(),
                outputs: vec![],
            })
            .collect();
        let refused = task.add_node(id, client_desc(if i == 0 { "stable" } else { "unstable" }), providers);
        assert!(refused.is_empty());
        ids.push(id);
    }
    (task, ids)
}

/// Start a function as the orchestrator does, with every instance starting
/// successfully: the first active, the replicas on other nodes.
fn start_function(task: &mut OrchestratorTask, req: &SpawnFunctionRequest) -> StartVerdict {
    if task.replication_precheck(req).is_err() {
        return StartVerdict::AllFailed;
    }
    let lid = new_id();
    let mut outcomes = vec![];
    let mut used = vec![];
    match task.select_node(req) {
        Ok(node) => {
            task.record_function_started(req, lid, node, new_id());
            outcomes.push(true);
            used.push(node);
        }
        Err(_) => outcomes.push(false),
    }
    if let Some(rf) = req.replication_factor {
        if rf > 1 {
            for _ in 1..rf {
                match task.select_node_excluding(req, &used) {
                    Ok(node) => {
                        task.record_function_started(req, lid, node, new_id());
                        outcomes.push(true);
                        used.push(node);
                    }
                    Err(_) => outcomes.push(false),
                }
            }
        }
    }
    task.finish_start_function(req, lid, &outcomes)
}

fn instances_of(task: &OrchestratorTask, lid: u128) -> Vec<(InstanceId, bool)> {
    let i = task.find_active(lid).expect("active");
    task.active_instances[i].1.instance_ids()
}

#[test]
fn test_start_two_functions_then_stop_one() {
    let (mut task, nodes) = domain(1, 0, OrchestrationStrategy::RoundRobin);
    assert_eq!(1, task.nodes.len());
    let f1 = match start_function(&mut task, &spawn_request("f1", None)) {
        StartVerdict::Started(lid) => lid,
        other => panic!("{:?}", other),
    };
    let f2 = match start_function(&mut task, &spawn_request("f2", None)) {
        StartVerdict::Started(lid) => lid,
        other => panic!("{:?}", other),
    };
    assert_eq!(2, task.active_instances.len());
    assert_eq!(nodes[0], instances_of(&task, f1)[0].0.node_id);

    // f1 -> f2
    let patches = task.patch(PatchRequest {
        function_id: f1,
        output_mapping: vec![("out".to_string(), InstanceId { node_id: 0, function_id: f2 })],
    });
    assert_eq!(1, patches.len());
    let f2_instance = instances_of(&task, f2)[0].0;
    assert_eq!(vec![("out".to_string(), f2_instance)], patches[0].output_mapping);
    assert_eq!(vec![f1], task.dependencies(f2));

    // Stop f2: its instance is stopped and f1 is repatched with no output.
    let plan = task.stop_function_lid(f2).expect("known");
    assert_eq!(vec![f2_instance], plan.instances_to_stop);
    assert_eq!(1, plan.patches.len());
    assert!(plan.patches[0].output_mapping.is_empty());
    assert!(task.find_active(f2).is_none());
    assert!(task.active_instances_changed);
    assert!(task.dependency_graph_changed);
    assert!(task.stop_function_lid(f2).is_none());
}

#[test]
fn replicas_go_to_distinct_nodes_and_one_is_active() {
    let (mut task, _nodes) = domain(3, 0, OrchestrationStrategy::Random);
    let lid = match start_function(&mut task, &spawn_request("f", Some(3))) {
        StartVerdict::Started(lid) => lid,
        other => panic!("{:?}", other),
    };
    let insts = instances_of(&task, lid);
    assert_eq!(3, insts.len());
    assert!(insts[0].1);
    assert!(!insts[1].1 && !insts[2].1);
    assert_ne!(insts[0].0.node_id, insts[1].0.node_id);
    assert_ne!(insts[1].0.node_id, insts[2].0.node_id);
    assert_ne!(insts[0].0.node_id, insts[2].0.node_id);
    assert_eq!(vec![lid], task.critical_lids);
}

#[test]
fn test_orc_node_hot_redundancy_not_enough_nodes() {
    let (mut task, _nodes) = domain(2, 0, OrchestrationStrategy::Random);
    let req = spawn_request("f", Some(3));
    let err = task.replication_precheck(&req).err().expect("not enough nodes");
    assert_eq!(3, err.replication_factor);
    assert_eq!(2, err.found);
    assert_eq!(StartVerdict::AllFailed, start_function(&mut task, &req));
    assert!(task.active_instances.is_empty());
}

#[test]
fn test_orc_node_hot_redundancy_not_enough_matching_nodes() {
    // Three nodes, but only the first is "stable": two replicas cannot be
    // placed on stable nodes, and nothing is started.
    let (mut task, _nodes) = domain(3, 0, OrchestrationStrategy::Random);
    let mut req = spawn_request("f1", Some(2));
    req.annotations.push(("label_match_all".to_string(), "stable".to_string()));
    let err = task.replication_precheck(&req).err().expect("not enough matching nodes");
    assert_eq!(2, err.replication_factor);
    assert_eq!(1, err.found);
    assert_eq!(StartVerdict::AllFailed, start_function(&mut task, &req));
    assert!(task.active_instances.is_empty());
}

#[test]
fn graceful_failover_promotes_the_standby() {
    let (mut task, nodes) = domain(3, 0, OrchestrationStrategy::RoundRobin);
    let mut req = spawn_request("f2", Some(2));
    req.annotations.push(("label_match_all".to_string(), "unstable".to_string()));
    let lid = match start_function(&mut task, &req) {
        StartVerdict::Started(lid) => lid,
        other => panic!("{:?}", other),
    };
    let insts = instances_of(&task, lid);
    let active_node = insts.iter().find(|x| x.1).unwrap().0.node_id;
    let standby_node = insts.iter().find(|x| !x.1).unwrap().0.node_id;
    assert!(active_node != nodes[0] && standby_node != nodes[0]);

    // The node of the active instance leaves.
    assert!(task.del_node(active_node));
    let result = task.detect_critical_failures();
    assert_eq!(vec![lid], result.to_repatch);
    assert_eq!(1, result.replicas_to_create.len());
    assert_eq!(lid, result.replicas_to_create[0].lid);
    let insts = instances_of(&task, lid);
    assert_eq!(1, insts.len());
    assert_eq!(standby_node, insts[0].0.node_id);
    assert!(insts[0].1);
}

#[test]
fn test_orc_node_hot_redundancy_replica_dies() {
    let (mut task, _nodes) = domain(3, 0, OrchestrationStrategy::Random);
    let lid = match start_function(&mut task, &spawn_request("f1", Some(2))) {
        StartVerdict::Started(lid) => lid,
        other => panic!("{:?}", other),
    };
    let insts = instances_of(&task, lid);
    let active_node = insts.iter().find(|x| x.1).unwrap().0.node_id;
    let standby_node = insts.iter().find(|x| !x.1).unwrap().0.node_id;
    assert!(task.del_node(standby_node));
    let result = task.detect_critical_failures();
    // The standby left with its node: the active instance is untouched, so
    // nothing is repatched, and a new replica is due.
    assert!(result.to_repatch.is_empty());
    assert!(task.precompute_patches(&vec![lid]).is_empty());
    assert_eq!(1, result.replicas_to_create.len());
    let insts = instances_of(&task, lid);
    assert_eq!(vec![active_node], insts.iter().map(|x| x.0.node_id).collect::<Vec<u128>>());
    assert!(insts[0].1);
}

#[test]
fn test_orc_node_hot_redundancy_all_die() {
    let (mut task, nodes) = domain(3, 0, OrchestrationStrategy::Random);
    let mut req = spawn_request("f", Some(2));
    req.annotations.push(("label_match_all".to_string(), "unstable".to_string()));
    let lid = match start_function(&mut task, &req) {
        StartVerdict::Started(lid) => lid,
        other => panic!("{:?}", other),
    };
    assert!(task.del_node(nodes[1]));
    assert!(task.del_node(nodes[2]));
    let result = task.detect_critical_failures();
    assert!(result.to_repatch.is_empty());
    // The function lost all its instances: it is to be created anew, but
    // no node left can serve it, so it keeps no instance.
    assert_eq!(2, result.replicas_to_create.len());
    assert!(task.select_node(&result.replicas_to_create[0].spawn_req).is_err());
    assert!(instances_of(&task, lid).is_empty());
    // It is repatched on the other path, and no workflow is stopped.
    let non_critical = task.detect_non_critical_failures(&result);
    assert_eq!(vec![lid], non_critical.to_repatch);
    assert!(non_critical.workflows_to_stop.is_empty());
}

#[test]
fn test_orc_node_with_fun_disconnects() {
    // f1 -> f2 -> f3 -> f4, with f1, f3, f4 on the stable node and f2
    // (replication factor 1) on a node that leaves.
    let (mut task, nodes) = domain(10, 0, OrchestrationStrategy::Random);
    let stable = nodes[0];
    let mut lids = vec![];
    for name in ["f1", "f2", "f3", "f4"] {
        let mut req = spawn_request(name, Some(1));
        if name == "f2" {
            req.annotations.push(("label_match_all".to_string(), "unstable".to_string()));
        } else {
            req.annotations.push(("node_id_match_any".to_string(), text_of(stable)));
        }
        match start_function(&mut task, &req) {
            StartVerdict::Started(lid) => lids.push(lid),
            other => panic!("{:?}", other),
        }
    }
    for k in 0..3 {
        task.patch(PatchRequest {
            function_id: lids[k],
            output_mapping: vec![("out".to_string(), InstanceId { node_id: 0, function_id: lids[k + 1] })],
        });
    }
    let f2_node = instances_of(&task, lids[1])[0].0.node_id;
    assert_ne!(stable, f2_node);
    assert!(task.del_node(f2_node));

    // The refresh: nothing is stopped, f2 is started anew, then f1 and f2
    // are repatched.
    let critical = task.detect_critical_failures();
    assert!(critical.to_repatch.is_empty());
    assert_eq!(1, critical.replicas_to_create.len());
    assert_eq!(lids[1], critical.replicas_to_create[0].lid);
    let non_critical = task.detect_non_critical_failures(&critical);
    assert!(non_critical.workflows_to_stop.is_empty());
    let new_node = task.select_node(&critical.replicas_to_create[0].spawn_req).ok().expect("an unstable node");
    assert_ne!(stable, new_node);
    let new_pid = new_id();
    task.record_function_started(&critical.replicas_to_create[0].spawn_req, lids[1], new_node, new_pid);
    let mut expected = vec![lids[0], lids[1]];
    expected.sort();
    assert_eq!(expected, non_critical.to_repatch);
    let patches = task.precompute_patches(&non_critical.to_repatch);
    assert_eq!(2, patches.len());
    let f1_instance = instances_of(&task, lids[0])[0].0;
    let f3_instance = instances_of(&task, lids[2])[0].0;
    let new_instance = InstanceId { node_id: new_node, function_id: new_pid };
    for p in &patches {
        match &p.source_pid {
            Pid::Function(id) if *id == f1_instance => assert_eq!(vec![("out".to_string(), new_instance)], p.output_mapping),
            Pid::Function(id) if *id == new_instance => assert_eq!(vec![("out".to_string(), f3_instance)], p.output_mapping),
            _ => panic!("unexpected patch"),
        }
    }
}

#[test]
fn non_replicated_function_dies_with_its_node() {
    let (mut task, nodes) = domain(2, 0, OrchestrationStrategy::RoundRobin);
    let mut req = spawn_request("f", None);
    req.annotations.push(("node_id_match_any".to_string(), text_of(nodes[1])));
    req.workflow_id = "wf-b".to_string();
    let lid = match start_function(&mut task, &req) {
        StartVerdict::Started(lid) => lid,
        other => panic!("{:?}", other),
    };
    let mut other = spawn_request("g", None);
    other.annotations.push(("node_id_match_any".to_string(), text_of(nodes[1])));
    other.workflow_id = "wf-a".to_string();
    start_function(&mut task, &other);
    assert!(task.del_node(nodes[1]));
    let critical = task.detect_critical_failures();
    let result = task.detect_non_critical_failures(&critical);
    assert_eq!(vec!["wf-a".to_string(), "wf-b".to_string()], result.workflows_to_stop);
    assert!(result.to_repatch.is_empty());
    assert!(task.lids_of_workflows(&vec!["wf-b".to_string()], true).contains(&lid));
}

#[test]
fn lost_resource_is_recreated_and_dependents_repatched() {
    let (mut task, nodes) = domain(2, 1, OrchestrationStrategy::RoundRobin);
    let r = new_id();
    let provider = task.choose_provider(&resource_request("rc-1")).expect("provider");
    task.record_resource_started(&resource_request("rc-1"), r, provider.1, new_id());
    let f = match start_function(&mut task, &spawn_request("f", None)) {
        StartVerdict::Started(lid) => lid,
        other => panic!("{:?}", other),
    };
    task.patch(PatchRequest { function_id: f, output_mapping: vec![("out".to_string(), InstanceId { node_id: 0, function_id: r })] });
    assert!(task.del_node(provider.1));
    let critical = task.detect_critical_failures();
    let result = task.detect_non_critical_failures(&critical);
    assert_eq!(1, result.resources_to_create.len());
    assert_eq!(r, result.resources_to_create[0].0);
    assert!(result.to_repatch.contains(&r));
    assert!(result.to_repatch.contains(&f));
    assert!(result.to_repatch.windows(2).all(|w| w[0] < w[1]));
    // A failed re-creation leaves the resource with no instance.
    task.resource_failed(r);
    let i = task.find_active(r).unwrap();
    match &task.active_instances[i].1 {
        ActiveInstance::Resource(_, id) => assert!(id.is_none()),
        _ => panic!("not a resource"),
    }
    assert!(nodes.len() == 2);
}

#[test]
fn feasible_providers_and_portal() {
    let (mut task, nodes) = domain(2, 1, OrchestrationStrategy::Random);
    let providers = task.feasible_providers(&resource_request("rc-1"));
    assert_eq!(vec!["node-0-resource-0-provider".to_string(), "node-1-resource-0-provider".to_string()], providers);
    assert!(task.feasible_providers(&resource_request("rc-666")).is_empty());
    assert!(task.choose_provider(&resource_request("rc-666")).is_none());
    assert!(task.is_node_feasible_for_resource(&resource_request("rc-1"), nodes[0]));

    // A portal goes to the provider named after the domain, if any.
    let mut portal = resource_request("portal");
    portal.configuration.push(("domain".to_string(), "portal".to_string()));
    portal.configuration.push(("domain_name".to_string(), "dom-2".to_string()));
    assert!(task.feasible_providers(&portal).is_empty());
    task.add_node(
        new_id(),
        client_desc("other"),
        vec![ResourceProviderSpecification { provider_id: "portal-dom-2".to_string(), class_type: "portal".to_string(), outputs: vec![] }],
    );
    assert_eq!(vec!["portal-dom-2".to_string()], task.feasible_providers(&portal));
}

#[test]
fn duplicate_provider_is_refused() {
    let (mut task, _nodes) = domain(1, 1, OrchestrationStrategy::Random);
    let refused = task.add_node(
        new_id(),
        client_desc("x"),
        vec![ResourceProviderSpecification {
            provider_id: "node-0-resource-0-provider".to_string(),
            class_type: "rc-1".to_string(),
            outputs: vec![],
        }],
    );
    assert_eq!(vec!["node-0-resource-0-provider".to_string()], refused);
    assert_eq!(1, task.resource_providers.len());
}

#[test]
fn deleting_a_node_drops_its_providers_and_instances() {
    let (mut task, nodes) = domain(2, 2, OrchestrationStrategy::RoundRobin);
    assert_eq!(4, task.resource_providers.len());
    assert!(task.del_node(nodes[0]));
    assert!(!task.del_node(nodes[0]));
    assert_eq!(1, task.nodes.len());
    assert_eq!(2, task.resource_providers.len());
    assert!(task.resource_providers.iter().all(|p| p.1.node_id == nodes[1]));
}

#[test]
fn test_orc_update_domain_capabilities() {
    let num_nodes = 10;
    let num_resources = 5;
    let (task, _nodes) = domain(num_nodes, num_resources, OrchestrationStrategy::Random);
    let caps = task.domain_capabilities();
    assert_eq!(num_nodes as u32, caps.num_nodes);
    assert_eq!(num_nodes as u32, caps.num_cpus);
    assert_eq!(num_nodes as u32, caps.num_cores);
    let mut labels = caps.labels.clone();
    labels.sort();
    assert_eq!(vec!["stable".to_string(), "unstable".to_string()], labels);
    assert_eq!(vec!["RUST_WASM".to_string()], caps.runtimes);
    assert_eq!(num_nodes * num_resources, caps.resource_providers.len());
    for node_id in 0..num_nodes {
        for res_id in 0..num_resources {
            assert!(caps.resource_providers.contains(&format!("node-{}-resource-{}-provider", node_id, res_id)));
        }
    }
    assert_eq!(vec!["rc-1".to_string()], caps.resource_classes);
}

#[test]
fn migrate_function_and_resource() {
    let (mut task, nodes) = domain(3, 1, OrchestrationStrategy::RoundRobin);
    let mut req = spawn_request("f", None);
    req.annotations.push(("node_id_match_any".to_string(), text_of(nodes[0])));
    let f = match start_function(&mut task, &req) {
        StartVerdict::Started(lid) => lid,
        other => panic!("{:?}", other),
    };
    // Already there.
    assert_eq!(Some(MigrationError::AlreadyOnTargets), task.plan_migration(f, &vec![nodes[0]]).err());
    // The pin-point annotation makes other nodes unfeasible.
    assert_eq!(Some(MigrationError::NoFeasibleTarget), task.plan_migration(f, &vec![nodes[1]]).err());
    assert_eq!(Some(MigrationError::NotActive), task.plan_migration(new_id(), &vec![nodes[1]]).err());

    let g = match start_function(&mut task, &spawn_request("g", None)) {
        StartVerdict::Started(lid) => lid,
        other => panic!("{:?}", other),
    };
    let from = instances_of(&task, g)[0].0;
    let target = if from.node_id == nodes[2] { nodes[1] } else { nodes[2] };
    match task.plan_migration(g, &vec![target]).ok().expect("plan") {
        MigrationPlan::Function { to_stop, target: t, .. } => {
            assert_eq!(vec![from], to_stop);
            assert_eq!(target, t);
        }
        _ => panic!("not a function"),
    }
    task.clear_instances(g);
    assert!(instances_of(&task, g).is_empty());
    task.record_function_started(&spawn_request("g", None), g, target, new_id());
    let insts = instances_of(&task, g);
    assert_eq!(1, insts.len());
    assert!(insts[0].1);
    assert_eq!(target, insts[0].0.node_id);

    // A resource.
    let r = new_id();
    task.record_resource_started(&resource_request("rc-1"), r, nodes[0], new_id());
    assert_eq!(Some(MigrationError::NullTarget), task.plan_migration(r, &vec![]).err());
    match task.plan_migration(r, &vec![nodes[1]]).ok().expect("plan") {
        MigrationPlan::Resource { target: t, to_stop, .. } => {
            assert_eq!(nodes[1], t);
            assert_eq!(nodes[0], to_stop[0].node_id);
        }
        _ => panic!("not a resource"),
    }
}

#[test]
fn lid_to_pid_skips_standby_instances() {
    let (mut task, _nodes) = domain(2, 0, OrchestrationStrategy::RoundRobin);
    let lid = match start_function(&mut task, &spawn_request("f", Some(2))) {
        StartVerdict::Started(lid) => lid,
        other => panic!("{:?}", other),
    };
    let insts = instances_of(&task, lid);
    assert_eq!(vec![Pid::Function(insts[0].0)], task.lid_to_pid(lid));
    assert!(task.lid_to_pid(new_id()).is_empty());
}

#[test]
fn reset_lists_functions_and_resources() {
    let (mut task, nodes) = domain(1, 1, OrchestrationStrategy::RoundRobin);
    let f = match start_function(&mut task, &spawn_request("f", None)) {
        StartVerdict::Started(lid) => lid,
        other => panic!("{:?}", other),
    };
    let r = new_id();
    task.record_resource_started(&resource_request("rc-1"), r, nodes[0], new_id());
    let (functions, resources) = task.reset_plan();
    assert_eq!(vec![f], functions);
    assert_eq!(vec![r], resources);
    let plan = task.stop_resource_lid(r).expect("known");
    assert_eq!(1, plan.instances_to_stop.len());
    let plan = task.stop_function_lid(f).expect("known");
    assert_eq!(1, plan.instances_to_stop.len());
    assert!(task.active_instances.is_empty());
}

#[test]
fn first_instance_failure_forgets_the_function() {
    let (mut task, nodes) = domain(2, 0, OrchestrationStrategy::RoundRobin);
    let req = spawn_request("f", Some(2));
    let lid = new_id();
    task.record_function_started(&req, lid, nodes[1], new_id());
    assert_eq!(StartVerdict::FirstFailed, task.finish_start_function(&req, lid, &vec![false, true]));
    assert!(task.find_active(lid).is_none());
    assert_eq!(StartVerdict::AllFailed, task.finish_start_function(&req, lid, &vec![false, false]));
    assert!(task.critical_lids.is_empty());
}

#[test]
fn stopping_undoes_starting() {
    let (mut task, nodes) = domain(3, 0, OrchestrationStrategy::RoundRobin);
    // Something already running, with a patch.
    let keep = match start_function(&mut task, &spawn_request("keep", None)) {
        StartVerdict::Started(lid) => lid,
        other => panic!("{:?}", other),
    };
    let before_active: Vec<u128> = task.active_instances.iter().map(|p| p.0).collect();
    let before_critical = task.critical_lids.clone();

    let lid = match start_function(&mut task, &spawn_request("f", Some(2))) {
        StartVerdict::Started(lid) => lid,
        other => panic!("{:?}", other),
    };
    assert_eq!(vec![lid], task.critical_lids);
    let plan = task.stop_function_lid(lid).expect("known");
    assert_eq!(2, plan.instances_to_stop.len());
    assert_eq!(before_active, task.active_instances.iter().map(|p| p.0).collect::<Vec<_>>());
    assert_eq!(before_critical, task.critical_lids);
    assert!(task.find_active(keep).is_some());

    let r = new_id();
    task.record_resource_started(&resource_request("rc-1"), r, nodes[1], new_id());
    assert!(task.stop_resource_lid(r).is_some());
    assert_eq!(before_active, task.active_instances.iter().map(|p| p.0).collect::<Vec<_>>());
    assert!(task.dependency_graph.is_empty());
}

#[test]
fn capabilities_fit_the_aggregate() {
    let (mut task, _nodes) = domain(2, 0, OrchestrationStrategy::RoundRobin);
    assert!(task.capabilities_fit());
    let mut big = client_desc("big");
    big.capabilities.num_cpus = u32::MAX;
    assert!(task.add_node(new_id(), big, vec![]).is_empty());
    // The other nodes already count one CPU each: the sum no longer fits.
    assert!(!task.capabilities_fit());
}

#[test]
fn new_replicas_avoid_the_nodes_of_the_instances() {
    let (mut task, _nodes) = domain(3, 0, OrchestrationStrategy::Random);
    let lid = match start_function(&mut task, &spawn_request("f", Some(2))) {
        StartVerdict::Started(lid) => lid,
        other => panic!("{:?}", other),
    };
    let used = task.instance_nodes(lid);
    assert_eq!(2, used.len());
    let replica = task.select_node_excluding(&spawn_request("f", Some(2)), &used).ok().expect("a third node");
    assert!(!used.contains(&replica));
    assert!(task.instance_nodes(new_id()).is_empty());
}

#[test]
fn round_robin_goes_round_the_nodes() {
    let (mut task, nodes) = domain(3, 0, OrchestrationStrategy::RoundRobin);
    let req = spawn_request("f", None);
    let picks: Vec<u128> = (0..6).map(|_| task.select_node(&req).ok().expect("a node")).collect();
    for k in 0..3 {
        assert_eq!(picks[k], picks[k + 3]);
    }
    let mut first_three = picks[0..3].to_vec();
    first_three.sort();
    let mut all = nodes.clone();
    all.sort();
    assert_eq!(all, first_three);
}

#[test]
fn replica_nodes_avoid_instances_and_tried_nodes() {
    let (mut task, nodes) = domain(3, 0, OrchestrationStrategy::RoundRobin);
    let lid = match start_function(&mut task, &spawn_request("f", None)) {
        StartVerdict::Started(lid) => lid,
        other => panic!("{:?}", other),
    };
    let used = task.instance_nodes(lid);
    let req = spawn_request("f", None);
    let third = nodes.iter().copied().find(|n| !used.contains(n)).unwrap();
    let tried: Vec<u128> = nodes.iter().copied().filter(|n| *n != third && !used.contains(n)).collect();
    assert_eq!(Some(third), task.select_replica_node(&req, lid, &tried).ok());
    let all_but: Vec<u128> = nodes.iter().copied().filter(|n| !used.contains(n)).collect();
    assert!(task.select_replica_node(&req, lid, &all_but).is_err());
}
