//! Parameters of a probe run, passed in explicitly.
use vstd::prelude::*;

verus! {

/// The parameters that both probes run under.
#[derive(Clone, Copy, Debug, PartialEq, Eq, Structural)]
pub struct ProbeConfig {
    /// How long the liveness sampler keeps sending.
    pub sampling_duration_seconds: u64,
    /// Cadence of the liveness sampler.
    pub send_interval_ms: u64,
    /// How long one probe waits for its reply.
    pub reply_timeout_ms: u64,
    /// Highest TTL that the path prober tries.
    pub max_ttl: u8,
    /// Probes sent at each TTL.
    pub probes_per_hop: u8,
}

/// The standard parameters: 59 s of sampling every 500 ms, one second per
/// reply, TTLs up to 30 with 3 probes each.
pub fn default_config() -> (r: ProbeConfig)
    ensures
        r == (ProbeConfig {
            sampling_duration_seconds: 59,
            send_interval_ms: 500,
            reply_timeout_ms: 1000,
            max_ttl: 30,
            probes_per_hop: 3,
        }),
{
    ProbeConfig {
        sampling_duration_seconds: 59,
        send_interval_ms: 500,
        reply_timeout_ms: 1000,
        max_ttl: 30,
        probes_per_hop: 3,
    }
}

} // verus!
