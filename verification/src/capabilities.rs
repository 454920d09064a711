//! Capabilities advertised by nodes and aggregated per domain.
use vstd::prelude::*;
use crate::text::{views, clone_strings};

verus! {

/// Capabilities of a node, as advertised upon registration.
///
/// The CPU clock frequency is held in whole MHz.
pub struct NodeCapabilities {
    pub num_cpus: u32,
    pub num_cores: u32,
    pub clock_freq_cpu: u32,
    pub mem_size: u32,
    pub labels: Vec<String>,
    pub is_tee_running: bool,
    pub has_tpm: bool,
    pub runtimes: Vec<String>,
    pub disk_tot_space: u64,
    pub num_gpus: u32,
    pub mem_size_gpu: u32,
}

/// Mathematical model of `NodeCapabilities`.
pub struct NodeCapabilitiesView {
    pub num_cpus: u32,
    pub num_cores: u32,
    pub clock_freq_cpu: u32,
    pub mem_size: u32,
    pub labels: Seq<Seq<char>>,
    pub is_tee_running: bool,
    pub has_tpm: bool,
    pub runtimes: Seq<Seq<char>>,
    pub disk_tot_space: u64,
    pub num_gpus: u32,
    pub mem_size_gpu: u32,
}

impl View for NodeCapabilities {
    type V = NodeCapabilitiesView;

    open spec fn view(&self) -> NodeCapabilitiesView {
        NodeCapabilitiesView {
            num_cpus: self.num_cpus,
            num_cores: self.num_cores,
            clock_freq_cpu: self.clock_freq_cpu,
            mem_size: self.mem_size,
            labels: views(self.labels@),
            is_tee_running: self.is_tee_running,
            has_tpm: self.has_tpm,
            runtimes: views(self.runtimes@),
            disk_tot_space: self.disk_tot_space,
            num_gpus: self.num_gpus,
            mem_size_gpu: self.mem_size_gpu,
        }
    }
}

impl NodeCapabilities {
    /// The least capable node: one CPU with one core, running WebAssembly
    /// functions, with nothing else.
    pub fn minimum() -> (r: Self)
        ensures
            r@.num_cpus == 1,
            r@.num_cores == 1,
            r@.clock_freq_cpu == 0,
            r@.mem_size == 0,
            r@.labels == Seq::<Seq<char>>::empty(),
            !r@.is_tee_running,
            !r@.has_tpm,
            r@.runtimes == seq!["RUST_WASM"@],
            r@.disk_tot_space == 0,
            r@.num_gpus == 0,
            r@.mem_size_gpu == 0,
    {
        let mut runtimes: Vec<String> = Vec::new();
        runtimes.push(String::from_str("RUST_WASM"));
        let labels: Vec<String> = Vec::new();
        let r = NodeCapabilities {
            num_cpus: 1,
            num_cores: 1,
            clock_freq_cpu: 0,
            mem_size: 0,
            labels,
            is_tee_running: false,
            has_tpm: false,
            runtimes,
            disk_tot_space: 0,
            num_gpus: 0,
            mem_size_gpu: 0,
        };
        assert(r@.labels =~= Seq::<Seq<char>>::empty());
        assert(r@.runtimes =~= seq!["RUST_WASM"@]);
        r
    }

    /// A copy of these capabilities.
    pub fn duplicate(&self) -> (r: Self)
        ensures
            r@ == self@,
    {
        NodeCapabilities {
            num_cpus: self.num_cpus,
            num_cores: self.num_cores,
            clock_freq_cpu: self.clock_freq_cpu,
            mem_size: self.mem_size,
            labels: clone_strings(&self.labels),
            is_tee_running: self.is_tee_running,
            has_tpm: self.has_tpm,
            runtimes: clone_strings(&self.runtimes),
            disk_tot_space: self.disk_tot_space,
            num_gpus: self.num_gpus,
            mem_size_gpu: self.mem_size_gpu,
        }
    }
}

/// The aggregated capabilities of the nodes of a domain.
pub struct DomainCapabilities {
    pub num_nodes: u32,
    pub num_cpus: u32,
    pub num_cores: u32,
    pub mem_size: u32,
    pub labels: Vec<String>,
    pub num_tee: u32,
    pub num_tpm: u32,
    pub runtimes: Vec<String>,
    pub disk_tot_space: u64,
    pub num_gpus: u32,
    pub mem_size_gpu: u32,
    pub resource_providers: Vec<String>,
    pub resource_classes: Vec<String>,
}

/// Mathematical model of the aggregated capabilities: the label, run-time,
/// provider and class lists are sets.
pub struct DomainCapabilitiesView {
    pub num_nodes: nat,
    pub num_cpus: nat,
    pub num_cores: nat,
    pub mem_size: nat,
    pub labels: Set<Seq<char>>,
    pub num_tee: nat,
    pub num_tpm: nat,
    pub runtimes: Set<Seq<char>>,
    pub disk_tot_space: nat,
    pub num_gpus: nat,
    pub mem_size_gpu: nat,
    pub resource_providers: Set<Seq<char>>,
    pub resource_classes: Set<Seq<char>>,
}

impl DomainCapabilities {
    /// The model of no node and nothing offered.
    pub open spec fn empty_view() -> DomainCapabilitiesView {
        DomainCapabilitiesView {
                num_nodes: 0,
                num_cpus: 0,
                num_cores: 0,
                mem_size: 0,
                labels: Set::empty(),
                num_tee: 0,
                num_tpm: 0,
                runtimes: Set::empty(),
                disk_tot_space: 0,
                num_gpus: 0,
                mem_size_gpu: 0,
                resource_providers: Set::empty(),
                resource_classes: Set::empty(),
        }
    }

    /// No node and nothing offered.
    pub fn empty() -> (r: Self)
        ensures
            r@ == Self::empty_view(),
    {
        let r = DomainCapabilities {
            num_nodes: 0,
            num_cpus: 0,
            num_cores: 0,
            mem_size: 0,
            labels: Vec::new(),
            num_tee: 0,
            num_tpm: 0,
            runtimes: Vec::new(),
            disk_tot_space: 0,
            num_gpus: 0,
            mem_size_gpu: 0,
            resource_providers: Vec::new(),
            resource_classes: Vec::new(),
        };
        assert(views(r.labels@).to_set() =~= Set::empty());
        assert(views(r.runtimes@).to_set() =~= Set::empty());
        assert(views(r.resource_providers@).to_set() =~= Set::empty());
        assert(views(r.resource_classes@).to_set() =~= Set::empty());
        r
    }

    /// A copy of these capabilities.
    pub fn duplicate(&self) -> (r: Self)
        ensures
            r@ == self@,
    {
        DomainCapabilities {
            num_nodes: self.num_nodes,
            num_cpus: self.num_cpus,
            num_cores: self.num_cores,
            mem_size: self.mem_size,
            labels: clone_strings(&self.labels),
            num_tee: self.num_tee,
            num_tpm: self.num_tpm,
            runtimes: clone_strings(&self.runtimes),
            disk_tot_space: self.disk_tot_space,
            num_gpus: self.num_gpus,
            mem_size_gpu: self.mem_size_gpu,
            resource_providers: clone_strings(&self.resource_providers),
            resource_classes: clone_strings(&self.resource_classes),
        }
    }
}

impl View for DomainCapabilities {
    type V = DomainCapabilitiesView;

    open spec fn view(&self) -> DomainCapabilitiesView {
        DomainCapabilitiesView {
            num_nodes: self.num_nodes as nat,
            num_cpus: self.num_cpus as nat,
            num_cores: self.num_cores as nat,
            mem_size: self.mem_size as nat,
            labels: views(self.labels@).to_set(),
            num_tee: self.num_tee as nat,
            num_tpm: self.num_tpm as nat,
            runtimes: views(self.runtimes@).to_set(),
            disk_tot_space: self.disk_tot_space as nat,
            num_gpus: self.num_gpus as nat,
            mem_size_gpu: self.mem_size_gpu as nat,
            resource_providers: views(self.resource_providers@).to_set(),
            resource_classes: views(self.resource_classes@).to_set(),
        }
    }
}

} // verus!
