//! A raw-ICMP probing engine: packet codec, latency statistics, a TTL-bounded
//! path prober and the orchestration of both probes against one target.
pub mod codec;
pub mod error;
pub mod stats;
pub mod config;
pub mod sampler;
pub mod path;
pub mod orchestrator;
