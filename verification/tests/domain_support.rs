use edgeless::active_instance::ActiveInstance;
use edgeless::deployment_requirements::DeploymentRequirements;
use edgeless::requests::{InstanceId, NewNodeData, ResourceInstanceSpecification, ResourceProvider};
use edgeless::capabilities::NodeCapabilities;
use edgeless::affinity_level::AffinityLevel;
use edgeless::deploy_intent::{DeployIntent, IntentError};
use edgeless::node_registry::{NodeRegistry, RegistrationAction};
use edgeless::orchestration_logic::OrchestrationStrategy;
use edgeless::proxy::{Category, ProxyNone, ProxyTest};
use edgeless::settings::{
    edgeless_orc_default_conf, make_proxy, DomainInfo, EdgelessOrcProxyDatasetSettings, EdgelessOrcProxySettings, NodePrintFormat,
    ProxyChoice,
};
use edgeless::sorted::{sorted_unique_ids, sorted_unique_texts, text_before};
use edgeless::capabilities::DomainCapabilities;
use edgeless::subscriber::SubscriberState;
use edgeless::settings::proxy_in_use;

fn proxy_settings(proxy_type: &str, redis_url: Option<&str>) -> EdgelessOrcProxySettings {
    EdgelessOrcProxySettings { proxy_type: proxy_type.to_string(), redis_url: redis_url.map(|s| s.to_string()), dataset_settings: None }
}

#[test]
fn default_configuration_text() {
    let conf = edgeless_orc_default_conf();
    assert!(conf.starts_with("[general]\ndomain_register_url = \"http://127.0.0.1:7004\"\n"));
    assert!(conf.contains("orchestration_strategy = \"Random\"\nkeep_alive_interval_secs = 2\n"));
    assert!(conf.contains("[proxy]\nproxy_type = \"None\"\nredis_url = \"\"\n"));
    assert!(conf.ends_with("additional_header = \"\"\n"));
}

#[test]
fn proxy_choice_follows_the_type() {
    assert!(matches!(make_proxy(proxy_settings("None", None)), ProxyChoice::NoProxy));
    assert!(matches!(make_proxy(proxy_settings("whatever", Some("redis://x"))), ProxyChoice::NoProxy));
    match make_proxy(proxy_settings("ReDiS", Some("redis://localhost:6379"))) {
        ProxyChoice::Redis { redis_url, dataset_settings } => {
            assert_eq!("redis://localhost:6379", redis_url);
            assert!(dataset_settings.is_none());
        }
        _ => panic!("expected a Redis proxy"),
    }
    let mut with_dataset = proxy_settings("redis", None);
    with_dataset.dataset_settings = Some(EdgelessOrcProxyDatasetSettings {
        dataset_path: "/tmp/ds".to_string(),
        append: true,
        additional_fields: "".to_string(),
        additional_header: "".to_string(),
    });
    match make_proxy(with_dataset) {
        ProxyChoice::Redis { redis_url, dataset_settings } => {
            assert_eq!("", redis_url);
            assert_eq!("/tmp/ds", dataset_settings.unwrap().dataset_path);
        }
        _ => panic!("expected a Redis proxy"),
    }
}

#[test]
fn node_print_formats() {
    assert_eq!(NodePrintFormat::Uuid, NodePrintFormat::from("uuid").ok().unwrap());
    assert_eq!(NodePrintFormat::Labels, NodePrintFormat::from("labels").ok().unwrap());
    assert_eq!(NodePrintFormat::Hostname, NodePrintFormat::from("hostname").ok().unwrap());
    assert_eq!("UUID", NodePrintFormat::from("UUID").err().unwrap().value);
}

#[test]
fn domain_info_defaults_to_no_identifier() {
    let info = DomainInfo::default();
    assert!(info.domain_id.is_empty());
    let copy = DomainInfo { domain_id: "my-domain".to_string() }.clone();
    assert_eq!("my-domain", copy.domain_id);
}

#[test]
fn affinity_levels_ignore_case() {
    assert_eq!(AffinityLevel::Required, AffinityLevel::from_string("REQuired"));
    assert_eq!(AffinityLevel::Required, AffinityLevel::from_string("required"));
    assert_eq!(AffinityLevel::NotRequired, AffinityLevel::from_string("not-required"));
    assert_eq!(AffinityLevel::NotRequired, AffinityLevel::from_string(""));
    assert_eq!("required", AffinityLevel::Required.to_text());
}

#[test]
fn intents_read_back_what_they_write() {
    let component = uuid::Uuid::new_v4();
    let t1 = uuid::Uuid::new_v4();
    let t2 = uuid::Uuid::new_v4();
    let intent = DeployIntent::Migrate(component.as_u128(), vec![t1.as_u128(), t2.as_u128()]);
    assert_eq!(format!("intent:migrate:{}", component), intent.key());
    assert_eq!(format!("{},{}", t1, t2), intent.value());
    match DeployIntent::new(&intent.key(), &intent.value()) {
        Ok(DeployIntent::Migrate(c, targets)) => {
            assert_eq!(component.as_u128(), c);
            assert_eq!(vec![t1.as_u128(), t2.as_u128()], targets);
        }
        Err(e) => panic!("{:?}", e),
    }
}

#[test]
fn intent_errors() {
    let id = uuid::Uuid::new_v4().to_string();
    assert_eq!(Some(IntentError::NotAnIntent), DeployIntent::new("foo:migrate:x", "").err());
    assert_eq!(Some(IntentError::IllFormed), DeployIntent::new("intent", "").err());
    assert_eq!(Some(IntentError::UnknownType), DeployIntent::new("intent:cordon:x", "").err());
    assert_eq!(Some(IntentError::WrongFieldCount), DeployIntent::new("intent:migrate", "").err());
    assert_eq!(Some(IntentError::InvalidComponent), DeployIntent::new("intent:migrate:not-a-uuid", "").err());
    assert_eq!(Some(IntentError::InvalidTarget), DeployIntent::new(&format!("intent:migrate:{}", id), "nope").err());
    match DeployIntent::new(&format!("intent:migrate:{}", id), "") {
        Ok(DeployIntent::Migrate(_, targets)) => assert!(targets.is_empty()),
        Err(e) => panic!("{:?}", e),
    }
}

#[test]
fn test_proxy_keeps_intents_in_order() {
    let mut proxy = ProxyTest::default();
    let a = uuid::Uuid::new_v4().as_u128();
    let b = uuid::Uuid::new_v4().as_u128();
    proxy.add_deploy_intents(vec![DeployIntent::Migrate(a, vec![])]);
    proxy.add_deploy_intents(vec![DeployIntent::Migrate(b, vec![a])]);
    assert!(proxy.updated(Category::ActiveInstances));
    let intents = proxy.retrieve_deploy_intents();
    assert_eq!(2, intents.len());
    assert!(matches!(&intents[0], DeployIntent::Migrate(c, t) if *c == a && t.is_empty()));
    assert!(matches!(&intents[1], DeployIntent::Migrate(c, t) if *c == b && *t == vec![a]));
    assert!(proxy.retrieve_deploy_intents().is_empty());

    let mut none = ProxyNone {};
    none.add_deploy_intents(vec![DeployIntent::Migrate(a, vec![])]);
    assert!(none.retrieve_deploy_intents().is_empty());
}

#[test]
fn registry_adds_refreshes_replaces_and_expires() {
    let mut registry = NodeRegistry::new();
    let n1 = uuid::Uuid::new_v4().as_u128();
    let n2 = uuid::Uuid::new_v4().as_u128();
    assert_eq!(RegistrationAction::Add, registry.update_node(n1, 100, 1));
    assert_eq!(RegistrationAction::Add, registry.update_node(n2, 200, 7));
    assert_eq!(RegistrationAction::Refresh, registry.update_node(n1, 300, 1));
    assert_eq!(300, registry.registered()[0].1.refresh_deadline);
    // Another counter: the node restarted; its registration is kept as is.
    assert_eq!(RegistrationAction::Replace, registry.update_node(n2, 500, 8));
    assert_eq!(200, registry.registered()[1].1.refresh_deadline);
    assert_eq!(7, registry.registered()[1].1.counter);
    assert!(registry.poll_at(200).is_empty());
    assert_eq!(vec![n2], registry.poll_at(250));
    assert_eq!(1, registry.registered().len());
    assert_eq!(vec![n1], registry.poll_at(301));
    assert!(registry.registered().is_empty());
}

#[test]
fn sorting_and_removing_repetitions() {
    assert_eq!(vec![1u128, 3, 7], sorted_unique_ids(&vec![7, 3, 7, 1, 3]));
    assert!(sorted_unique_ids(&vec![]).is_empty());
    let texts = vec!["wf-b".to_string(), "wf-a".to_string(), "wf-b".to_string(), "wf".to_string()];
    assert_eq!(vec!["wf".to_string(), "wf-a".to_string(), "wf-b".to_string()], sorted_unique_texts(&texts));
    assert!(text_before("a", "b"));
    assert!(text_before("ab", "abc"));
    assert!(!text_before("abc", "ab"));
    assert!(!text_before("x", "x"));
    assert!(text_before("Z", "a"));
}

#[test]
fn strategies_are_distinct() {
    assert!(OrchestrationStrategy::Random != OrchestrationStrategy::RoundRobin);
}

#[test]
fn subscription_announces_latest_capabilities_with_deadline() {
    let mut state = SubscriberState::new("domain-1".to_string(), "http://orc".to_string(), 5);
    let first = state.refresh_request(1_000);
    assert_eq!("domain-1", first.domain_id);
    assert_eq!("http://orc", first.orchestrator_url);
    assert_eq!(0, first.counter);
    assert_eq!(0, first.capabilities.num_nodes);
    // Twice the refresh period later, in milliseconds.
    assert_eq!(11_000, first.refresh_deadline);

    let mut caps = DomainCapabilities::empty();
    caps.num_nodes = 3;
    caps.labels.push("gpu".to_string());
    state.on_update(caps);
    let second = state.refresh_request(2_000);
    assert_eq!(1, second.counter);
    assert_eq!(3, second.capabilities.num_nodes);
    assert_eq!(vec!["gpu".to_string()], second.capabilities.labels);
    assert_eq!(12_000, second.refresh_deadline);
}

#[test]
fn registry_poll_drops_only_expired_nodes() {
    let mut registry = NodeRegistry::new();
    let stale = uuid::Uuid::new_v4().as_u128();
    let fresh = uuid::Uuid::new_v4().as_u128();
    registry.update_node(stale, 0, 1);
    registry.update_node(fresh, u64::MAX, 1);
    assert_eq!(vec![stale], registry.poll());
    assert_eq!(1, registry.registered().len());
    assert_eq!(fresh, registry.registered()[0].0);
    assert!(registry.poll().is_empty());
}

#[test]
fn descriptions_of_intents_providers_requirements_and_instances() {
    let one = "00000000-0000-0000-0000-000000000001";
    let two = "00000000-0000-0000-0000-000000000002";
    let three = "00000000-0000-0000-0000-000000000003";

    let intent = DeployIntent::Migrate(1, vec![2, 3]);
    assert_eq!(format!("migrate component {} to [{},{}]", one, two, three), intent.to_text());
    assert_eq!(format!("migrate component {} to []", one), DeployIntent::Migrate(1, vec![]).to_text());

    let provider = ResourceProvider { class_type: "file-log".to_string(), node_id: 2, outputs: vec!["a".to_string(), "b".to_string()] };
    assert_eq!(format!("class_type file-log, node_id {}, outputs [a,b]", two), provider.to_text());

    let none = DeploymentRequirements::none();
    assert_eq!(
        "max_instances 0, node_id_match_any , label_match_all , resource_match_all , tee not-required, tpm not-required",
        none.to_text()
    );
    let some = DeploymentRequirements {
        max_instances: 12,
        node_id_match_any: vec![1, 2],
        label_match_all: vec!["gpu".to_string()],
        resource_match_all: vec!["r1".to_string(), "r2".to_string()],
        tee: AffinityLevel::Required,
        tpm: AffinityLevel::NotRequired,
    };
    assert_eq!(
        format!(
            "max_instances 12, node_id_match_any {},{}, label_match_all gpu, resource_match_all r1,r2, tee required, tpm not-required",
            one, two
        ),
        some.to_text()
    );

    let resource = ActiveInstance::Resource(
        ResourceInstanceSpecification { class_type: "http-egress".to_string(), configuration: vec![], workflow_id: "w".to_string() },
        InstanceId { node_id: 1, function_id: 2 },
    );
    assert_eq!(format!("resource class type http-egress, node_id {}, lid {}", one, two), resource.to_text());
}

#[test]
fn short_description_of_a_joining_node() {
    let data = NewNodeData {
        node_id: 255,
        agent_url: "http://10.0.0.1:7021".to_string(),
        invocation_url: "http://10.0.0.1:7002".to_string(),
        resource_providers: vec![],
        capabilities: NodeCapabilities::minimum(),
    };
    assert_eq!(
        "node_id 00000000-0000-0000-0000-0000000000ff, agent URL http://10.0.0.1:7021, invocation URL http://10.0.0.1:7002",
        data.to_string_short()
    );
}

#[test]
fn unreachable_redis_falls_back_to_no_proxy() {
    let redis = make_proxy(proxy_settings("Redis", Some("redis://127.0.0.1:6379")));
    assert!(matches!(proxy_in_use(redis, false), ProxyChoice::NoProxy));
    let redis = make_proxy(proxy_settings("redis", Some("redis://127.0.0.1:6379")));
    match proxy_in_use(redis, true) {
        ProxyChoice::Redis { redis_url, .. } => assert_eq!("redis://127.0.0.1:6379", redis_url),
        ProxyChoice::NoProxy => panic!("connected"),
    }
    assert!(matches!(proxy_in_use(ProxyChoice::NoProxy, true), ProxyChoice::NoProxy));
}

#[test]
fn affinity_level_read_back_from_its_text() {
    for a in [AffinityLevel::Required, AffinityLevel::NotRequired] {
        assert_eq!(a, AffinityLevel::from_string(&a.to_text()));
    }
}
