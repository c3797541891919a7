//! The liveness sampler's decisions: when to send, what sequence number to
//! use, how long to pause, and what the run amounts to. The caller performs
//! the sends and waits and reports each outcome back.
use vstd::prelude::*;
use crate::config::ProbeConfig;
use crate::error::ProbeError;
use crate::stats::{summarize, received_rtts, AggregateStats, ProbeSample};

verus! {

/// What the sampler asks its driver to do next.
#[derive(Clone, Copy, Debug, PartialEq, Eq, Structural)]
pub enum SamplerAction {
    /// Send one Echo Request with this sequence number and await its reply.
    Send { seq: u16 },
    /// The sampling window is over.
    Finish,
}

/// State of one sampling run.
pub struct Sampler {
    /// Identifier carried by this run's Echo Requests.
    pub identifier: u16,
    pub duration_seconds: u64,
    pub interval_ms: u64,
    pub next_seq: u16,
    pub samples: Vec<ProbeSample>,
}

impl Sampler {
    /// A run that has sent nothing yet, with sequence numbers from zero.
    pub fn new(config: &ProbeConfig) -> (r: Sampler)
        ensures
            r.duration_seconds == config.sampling_duration_seconds,
            r.interval_ms == config.send_interval_ms,
            r.next_seq == 0,
            r.samples@.len() == 0,
    {
        Sampler {
            identifier: rand::random(),
            duration_seconds: config.sampling_duration_seconds,
            interval_ms: config.send_interval_ms,
            next_seq: 0,
            samples: Vec::new(),
        }
    }

    /// Sends while less than the sampling duration has elapsed since the
    /// run began, and finishes after.
    pub fn next_action(&self, elapsed_ms: u64) -> (r: SamplerAction)
        ensures
            elapsed_ms < self.duration_seconds * 1000 ==> r == (SamplerAction::Send { seq: self.next_seq }),
            elapsed_ms >= self.duration_seconds * 1000 ==> r == SamplerAction::Finish,
    {
        if elapsed_ms / 1000 < self.duration_seconds {
            SamplerAction::Send { seq: self.next_seq }
        } else {
            SamplerAction::Finish
        }
    }

    /// Records the outcome of the probe just sent: its round trip in
    /// microseconds, or `None` when it timed out or its reply was unusable.
    /// The sequence number then advances, wrapping at 16 bits.
    pub fn record(&mut self, rtt_us: Option<u32>)
        requires
            old(self).samples@.len() < usize::MAX,
        ensures
            final(self).samples@ == old(self).samples@.push(
                ProbeSample {
                    seq: old(self).next_seq,
                    received: rtt_us is Some,
                    rtt_us: match rtt_us {
                        Some(t) => t,
                        None => 0,
                    },
                },
            ),
            final(self).next_seq == (old(self).next_seq + 1) % 0x10000,
            final(self).duration_seconds == old(self).duration_seconds,
            final(self).interval_ms == old(self).interval_ms,
            final(self).identifier == old(self).identifier,
    {
        let sample = match rtt_us {
            Some(t) => ProbeSample { seq: self.next_seq, received: true, rtt_us: t },
            None => ProbeSample { seq: self.next_seq, received: false, rtt_us: 0 },
        };
        self.samples.push(sample);
        self.next_seq = self.next_seq.wrapping_add(1);
    }

    /// Milliseconds to pause, `elapsed_ms` into the run, until the next
    /// multiple of the send interval.
    pub fn pause_ms(&self, elapsed_ms: u64) -> (r: u64)
        ensures
            self.interval_ms == 0 ==> r == 0,
            self.interval_ms > 0 ==> r == self.interval_ms - elapsed_ms % self.interval_ms,
    {
        if self.interval_ms == 0 {
            0
        } else {
            self.interval_ms - elapsed_ms % self.interval_ms
        }
    }

    /// The statistics of the run; a run that sent nothing has failed.
    pub fn finish(&self) -> (r: Result<AggregateStats, ProbeError>)
        ensures
            self.samples@.len() == 0 ==> r == Err::<AggregateStats, ProbeError>(ProbeError::TransportUnavailable),
            self.samples@.len() > 0 ==> (r matches Ok(st) && st.describes(
                self.samples@.len() as int,
                received_rtts(self.samples@),
            )),
    {
        summarize(&self.samples)
    }
}

} // verus!
