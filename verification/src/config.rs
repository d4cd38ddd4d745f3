//! Configuration for the facade and its subsystems.

use vstd::prelude::*;
use vstd::string::StringExecFns;

verus! {

/// The highest drift level that does not by itself call for a block.
#[derive(Debug, Clone, Copy, PartialEq, Eq, Structural)]
pub enum DriftThreshold {
    /// No drift allowed.
    NoDrift,
    /// Minor drift allowed.
    Minor,
    /// Major drift allowed; not recommended.
    Major,
}

/// Registry settings.
#[derive(Debug, Clone)]
pub struct RegistryConfig {
    /// Where the host persists the registry.
    pub db_path: String,
    /// Review unknown tools instead of blocking them.
    pub allow_unknown_tools: bool,
    /// The highest tolerated drift level.
    pub max_allowed_drift: DriftThreshold,
}

impl Default for RegistryConfig {
    fn default() -> (c: RegistryConfig)
        ensures
            c.db_path@ == "./sentinel_registry.db"@,
            !c.allow_unknown_tools,
            c.max_allowed_drift == DriftThreshold::Minor,
    {
        RegistryConfig {
            db_path: String::from_str("./sentinel_registry.db"),
            allow_unknown_tools: false,
            max_allowed_drift: DriftThreshold::Minor,
        }
    }
}

/// Monitor settings.
#[derive(Debug, Clone, Copy, PartialEq, Eq, Structural)]
pub struct MonitorConfig {
    /// The gas budget per execution.
    pub gas_limit: u64,
    /// The context bound in bytes, translated coarsely to frames.
    pub max_context_bytes: usize,
    /// The maximum execution depth.
    pub max_depth: usize,
    /// Whether to run cycle detection.
    pub detect_cycles: bool,
}

impl Default for MonitorConfig {
    fn default() -> (c: MonitorConfig)
        ensures
            c == (MonitorConfig {
                gas_limit: 10000u64,
                max_context_bytes: 1000000usize,
                max_depth: 100usize,
                detect_cycles: true,
            }),
    {
        MonitorConfig {
            gas_limit: 10_000,
            max_context_bytes: 1_000_000,
            max_depth: 100,
            detect_cycles: true,
        }
    }
}

/// Council settings.
#[derive(Debug, Clone, Copy, PartialEq, Eq, Structural)]
pub struct CouncilConfig {
    /// The voter minimum for a quorum.
    pub min_votes_for_approval: u8,
    /// The inversion veto threshold, in thousandths.
    pub waluigi_threshold_permille: u32,
    /// Whether to run inversion detection.
    pub detect_waluigi: bool,
}

impl Default for CouncilConfig {
    fn default() -> (c: CouncilConfig)
        ensures
            c == (CouncilConfig {
                min_votes_for_approval: 2u8,
                waluigi_threshold_permille: 700u32,
                detect_waluigi: true,
            }),
    {
        CouncilConfig {
            min_votes_for_approval: 2,
            waluigi_threshold_permille: 700,
            detect_waluigi: true,
        }
    }
}

/// Global settings.
#[derive(Debug, Clone, Copy, PartialEq, Eq, Structural)]
pub struct GlobalConfig {
    /// Turn internal errors into blocks.
    pub fail_closed: bool,
    /// Keep detailed audit logs.
    pub audit_logging: bool,
    /// Stop the pipeline at the first block.
    pub short_circuit: bool,
}

impl Default for GlobalConfig {
    fn default() -> (c: GlobalConfig)
        ensures
            c == (GlobalConfig { fail_closed: true, audit_logging: true, short_circuit: true }),
    {
        GlobalConfig { fail_closed: true, audit_logging: true, short_circuit: true }
    }
}

/// The facade's configuration.
#[derive(Debug, Clone)]
pub struct SentinelConfig {
    /// Registry settings.
    pub registry: RegistryConfig,
    /// Monitor settings.
    pub monitor: MonitorConfig,
    /// Council settings.
    pub council: CouncilConfig,
    /// Global settings.
    pub global: GlobalConfig,
}

impl Default for SentinelConfig {
    fn default() -> (c: SentinelConfig)
        ensures
            !c.registry.allow_unknown_tools,
            c.monitor == (MonitorConfig {
                gas_limit: 10000u64,
                max_context_bytes: 1000000usize,
                max_depth: 100usize,
                detect_cycles: true,
            }),
            c.council == (CouncilConfig {
                min_votes_for_approval: 2u8,
                waluigi_threshold_permille: 700u32,
                detect_waluigi: true,
            }),
            c.global == (GlobalConfig {
                fail_closed: true,
                audit_logging: true,
                short_circuit: true,
            }),
    {
        SentinelConfig {
            registry: RegistryConfig::default(),
            monitor: MonitorConfig::default(),
            council: CouncilConfig::default(),
            global: GlobalConfig::default(),
        }
    }
}

} // verus!
