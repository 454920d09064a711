//! Orchestration of serverless functions and resources across the nodes of
//! an edge domain: node selection, deployment requirements and intents,
//! failure handling of active instances, and telemetry records.
pub mod text;
pub mod ids;
pub mod affinity_level;
pub mod capabilities;
pub mod deployment_requirements;
pub mod deploy_intent;
pub mod requests;
pub mod orchestration_logic;
pub mod active_instance;
pub mod assoc;
pub mod orchestrator;
pub mod telemetry;
pub mod tracer;
pub mod settings;
pub mod proxy;
pub mod membership;
pub mod lifecycle;
pub mod sorted;
pub mod placement;
pub mod failover;
pub mod node_registry;
pub mod subscriber;
pub mod proxy_local;
