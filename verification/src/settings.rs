//! Settings of the orchestrator, its default configuration file, and the
//! choice of the proxy that mirrors its state.
use vstd::prelude::*;
use crate::orchestration_logic::OrchestrationStrategy;
use crate::affinity_level::{lowercase, to_lowercase};
use crate::text::str_equal;

verus! {

/// The settings of an orchestrator.
pub struct EdgelessOrcSettings {
    pub general: EdgelessOrcGeneralSettings,
    pub baseline: EdgelessOrcBaselineSettings,
    pub proxy: EdgelessOrcProxySettings,
}

/// General settings of an orchestrator.
pub struct EdgelessOrcGeneralSettings {
    /// The URL of the domain register.
    pub domain_register_url: String,
    /// The interval at which the orchestrator refreshes subscription, s.
    pub subscription_refresh_interval_sec: u64,
    /// The identifier of the orchestration domain managed by this orchestrator.
    pub domain_id: String,
    /// The URL to which the orchestrator is bound.
    pub orchestrator_url: String,
    /// The URL to which the orchestrator can be reached, which may be
    /// different from `orchestrator_url`, e.g., for NAT traversal.
    pub orchestrator_url_announced: String,
    /// The COAP URL to which the orchestrator is bound.
    pub orchestrator_coap_url: Option<String>,
    /// The COAP URL to which the orchestrator can be reached.
    pub orchestrator_coap_url_announced: Option<String>,
}

/// Settings of the orchestration itself.
pub struct EdgelessOrcBaselineSettings {
    /// The orchestration strategy.
    pub orchestration_strategy: OrchestrationStrategy,
    /// The periodic interval at which nodes are polled for keep-alive and
    /// data structures are updated on the proxy.
    pub keep_alive_interval_secs: u64,
}

/// Settings of the proxy that mirrors the orchestrator's state.
pub struct EdgelessOrcProxySettings {
    /// Type of the proxy: "None" or "Redis", in any case.
    pub proxy_type: String,
    /// If proxy_type is "Redis" then this is the URL of the Redis server.
    pub redis_url: Option<String>,
    /// Settings on whether/how to save events to output files.
    pub dataset_settings: Option<EdgelessOrcProxyDatasetSettings>,
}

/// Settings of the datasets saved by the proxy.
pub struct EdgelessOrcProxyDatasetSettings {
    /// Path where to save the output CSV datasets. If empty, do not save them.
    pub dataset_path: String,
    /// Append to the output dataset files.
    pub append: bool,
    /// Additional fields recorded in the CSV output file.
    pub additional_fields: String,
    /// Header of additional fields recorded in the CSV output file.
    pub additional_header: String,
}

/// The default configuration file of an orchestrator.
pub open spec fn default_conf_text() -> Seq<char> {
    "[general]
domain_register_url = \"http://127.0.0.1:7004\"
subscription_refresh_interval_sec = 10
domain_id = \"domain-1\"
orchestrator_url = \"http://127.0.0.1:7011\"
orchestrator_url_announced = \"\"
orchestrator_coap_url = \"coap://127.0.0.1:7050\"
orchestrator_coap_url_announced = \"\"

[baseline]
orchestration_strategy = \"Random\"
keep_alive_interval_secs = 2

[proxy]
proxy_type = \"None\"
redis_url = \"\"

[proxy.dataset_settings]
dataset_path = \"\"
append = true
additional_fields = \"\"
additional_header = \"\"
"@
}

/// The default configuration file of an orchestrator.
pub fn edgeless_orc_default_conf() -> (r: String)
    ensures
        r@ == default_conf_text(),
{
    String::from_str(
        "[general]
domain_register_url = \"http://127.0.0.1:7004\"
subscription_refresh_interval_sec = 10
domain_id = \"domain-1\"
orchestrator_url = \"http://127.0.0.1:7011\"
orchestrator_url_announced = \"\"
orchestrator_coap_url = \"coap://127.0.0.1:7050\"
orchestrator_coap_url_announced = \"\"

[baseline]
orchestration_strategy = \"Random\"
keep_alive_interval_secs = 2

[proxy]
proxy_type = \"None\"
redis_url = \"\"

[proxy.dataset_settings]
dataset_path = \"\"
append = true
additional_fields = \"\"
additional_header = \"\"
",
    )
}

/// The proxy to use, as the settings choose it: a Redis proxy at the given
/// URL, or none.
pub enum ProxyChoice {
    NoProxy,
    Redis { redis_url: String, dataset_settings: Option<EdgelessOrcProxyDatasetSettings> },
}

/// Whether the settings ask for a Redis proxy: the proxy type is "redis" in
/// any case. Any other type, "none" or an unknown one, means no proxy.
pub open spec fn wants_redis(proxy_type: Seq<char>) -> bool {
    lowercase(proxy_type) == "redis"@
}

/// The URL of the Redis server: empty when the settings give none.
pub open spec fn redis_url_of(u: Option<String>) -> Seq<char> {
    match u {
        Some(s) => s@,
        None => Seq::<char>::empty(),
    }
}

/// Choose the proxy of the orchestrator from its settings. Connecting to
/// the Redis server is up to the caller, which falls back to no proxy if
/// that fails.
pub fn make_proxy(settings: EdgelessOrcProxySettings) -> (r: ProxyChoice)
    ensures
        wants_redis(settings.proxy_type@) <==> r is Redis,
        r matches ProxyChoice::Redis { redis_url, dataset_settings } ==> redis_url@ == redis_url_of(settings.redis_url)
            && dataset_settings == settings.dataset_settings,
{
    let kind = to_lowercase(settings.proxy_type.as_str());
    if str_equal(kind.as_str(), "redis") {
        let redis_url = match settings.redis_url {
            Some(u) => u,
            None => String::new(),
        };
        ProxyChoice::Redis { redis_url, dataset_settings: settings.dataset_settings }
    } else {
        ProxyChoice::NoProxy
    }
}

/// The proxy in use once the connection to the chosen one was tried: a
/// Redis proxy whose server could not be reached falls back to no proxy.
pub fn proxy_in_use(choice: ProxyChoice, connected: bool) -> (r: ProxyChoice)
    ensures
        r is Redis <==> (choice is Redis && connected),
        r is Redis ==> r == choice,
{
    match choice {
        ProxyChoice::Redis { redis_url, dataset_settings } => {
            if connected {
                ProxyChoice::Redis { redis_url, dataset_settings }
            } else {
                ProxyChoice::NoProxy
            }
        },
        ProxyChoice::NoProxy => ProxyChoice::NoProxy,
    }
}

/// Public information of an orchestration domain, advertised through the
/// proxy.
#[derive(Debug)]
pub struct DomainInfo {
    pub domain_id: String,
}

impl Clone for DomainInfo {
    fn clone(&self) -> (r: Self)
        ensures
            r.domain_id@ == self.domain_id@,
    {
        DomainInfo { domain_id: self.domain_id.clone() }
    }
}

impl Default for DomainInfo {
    fn default() -> (r: Self)
        ensures
            r.domain_id@ == Seq::<char>::empty(),
    {
        DomainInfo { domain_id: String::new() }
    }
}

/// How node identifiers are printed.
#[derive(PartialEq, Eq, Structural, Debug, Clone, Copy)]
pub enum NodePrintFormat {
    Uuid,
    Labels,
    Hostname,
}

/// A text that names no print format.
pub struct InvalidPrintFormat {
    pub value: String,
}

pub open spec fn print_format_of(s: Seq<char>) -> Option<NodePrintFormat> {
    if s == "uuid"@ {
        Some(NodePrintFormat::Uuid)
    } else if s == "labels"@ {
        Some(NodePrintFormat::Labels)
    } else if s == "hostname"@ {
        Some(NodePrintFormat::Hostname)
    } else {
        None
    }
}

impl NodePrintFormat {
    /// Read a print format: "uuid", "labels" or "hostname".
    pub fn from(s: &str) -> (r: Result<Self, InvalidPrintFormat>)
        ensures
            match r {
                Ok(f) => print_format_of(s@) == Some(f),
                Err(e) => print_format_of(s@) is None && e.value@ == s@,
            },
    {
        if str_equal(s, "uuid") {
            Ok(NodePrintFormat::Uuid)
        } else if str_equal(s, "labels") {
            Ok(NodePrintFormat::Labels)
        } else if str_equal(s, "hostname") {
            Ok(NodePrintFormat::Hostname)
        } else {
            Err(InvalidPrintFormat { value: String::from_str(s) })
        }
    }
}

} // verus!
