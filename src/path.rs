//! The path prober's decisions: which TTL to probe next, what a batch of
//! probes at one TTL amounts to, and when the path is complete. The caller
//! sends the probes and reports their outcomes back.
use vstd::prelude::*;
use crate::codec::{encode_echo_request, checksum_spec, echo_template, with_checksum, IcmpReply};
use crate::stats::{aggregate, AggregateStats};

verus! {

/// What became of one probe sent at a given TTL.
#[derive(Clone, Copy, Debug, PartialEq, Eq, Structural)]
pub enum ProbeOutcome {
    /// The probe could not be sent.
    NotSent,
    /// No reply came before the timeout.
    Lost,
    /// A datagram came back from `source` (an IPv4 address) after `rtt_us`.
    Reply { source: u32, reply: IcmpReply, rtt_us: u32 },
}

/// One TTL level of the path.
#[derive(Clone, Copy, Debug)]
pub struct HopRecord {
    pub ttl: u8,
    /// The address that answered at this TTL; `None` when nothing did.
    pub address: Option<u32>,
    /// Counts, loss and round trips of this TTL's probes.
    pub stats: AggregateStats,
    /// An Echo Reply came back: the probes reached their destination.
    pub reached: bool,
}

/// The hops toward a target, in TTL order.
#[derive(Clone, Debug)]
pub struct PathReport {
    pub hops: Vec<HopRecord>,
    /// The last hop reached the destination.
    pub reached: bool,
}

/// A reply counts when it is an Echo Reply or a Time Exceeded; anything
/// else is loss.
pub open spec fn usable(o: ProbeOutcome) -> bool {
    match o {
        ProbeOutcome::Reply { reply, .. } => !(reply is Other),
        _ => false,
    }
}

/// An Echo Reply ends the path, whether it comes from the target or from
/// another address; a Time Exceeded never does, whatever its source.
pub open spec fn ends_path(o: ProbeOutcome) -> bool {
    match o {
        ProbeOutcome::Reply { reply, .. } => match reply {
            IcmpReply::EchoReply { .. } => true,
            IcmpReply::TimeExceeded => false,
            IcmpReply::Other => false,
        },
        _ => false,
    }
}

/// Number of probes of the batch that were sent.
pub open spec fn hop_sent(s: Seq<ProbeOutcome>) -> nat
    decreases s.len(),
{
    if s.len() == 0 {
        0
    } else {
        hop_sent(s.drop_last()) + if s.last() is NotSent { 0nat } else { 1nat }
    }
}

/// Round trips of the usable replies of the batch, in order.
pub open spec fn hop_rtts(s: Seq<ProbeOutcome>) -> Seq<u32>
    decreases s.len(),
{
    if s.len() == 0 {
        Seq::empty()
    } else if usable(s.last()) {
        hop_rtts(s.drop_last()).push(s.last()->rtt_us)
    } else {
        hop_rtts(s.drop_last())
    }
}

/// Source of the last usable reply of the batch.
pub open spec fn hop_address(s: Seq<ProbeOutcome>) -> Option<u32>
    decreases s.len(),
{
    if s.len() == 0 {
        None
    } else if usable(s.last()) {
        Some(s.last()->source)
    } else {
        hop_address(s.drop_last())
    }
}

/// Some reply of the batch ends the path.
pub open spec fn hop_reached(s: Seq<ProbeOutcome>) -> bool {
    exists|i: int| 0 <= i < s.len() && ends_path(#[trigger] s[i])
}

impl HopRecord {
    /// This record is what the batch `s` at TTL `ttl` amounts to.
    pub open spec fn summarizes(self, ttl: int, s: Seq<ProbeOutcome>) -> bool {
        &&& self.ttl == ttl
        &&& self.address == hop_address(s)
        &&& self.reached == hop_reached(s)
        &&& self.stats.describes(hop_sent(s) as int, hop_rtts(s))
    }
}

proof fn lemma_rtts_within_sent(s: Seq<ProbeOutcome>)
    ensures
        hop_rtts(s).len() <= hop_sent(s),
        hop_rtts(s).len() == 0 <==> hop_address(s) is None,
    decreases s.len(),
{
    if s.len() > 0 {
        lemma_rtts_within_sent(s.drop_last());
    }
}

/// Sums up the batch of probes sent at TTL `ttl`.
pub fn summarize_hop(ttl: u8, outcomes: &Vec<ProbeOutcome>) -> (r: HopRecord)
    ensures
        r.summarizes(ttl as int, outcomes@),
{
    let mut sent: usize = 0;
    let mut rtts: Vec<u32> = Vec::new();
    let mut address: Option<u32> = None;
    let mut reached = false;
    let mut i: usize = 0;
    while i < outcomes.len()
        invariant
            i <= outcomes@.len(),
            sent == hop_sent(outcomes@.subrange(0, i as int)),
            sent <= i,
            rtts@ == hop_rtts(outcomes@.subrange(0, i as int)),
            address == hop_address(outcomes@.subrange(0, i as int)),
            reached == hop_reached(outcomes@.subrange(0, i as int)),
        decreases outcomes@.len() - i,
    {
        let ghost p = outcomes@.subrange(0, i + 1);
        let ghost q = outcomes@.subrange(0, i as int);
        proof {
            assert(p.drop_last() =~= q);
        }
        match outcomes[i] {
            ProbeOutcome::NotSent => {},
            ProbeOutcome::Lost => {
                sent = sent + 1;
            },
            ProbeOutcome::Reply { source, reply, rtt_us } => {
                sent = sent + 1;
                match reply {
                    IcmpReply::EchoReply { .. } => {
                        rtts.push(rtt_us);
                        address = Some(source);
                        reached = true;
                    },
                    IcmpReply::TimeExceeded => {
                        rtts.push(rtt_us);
                        address = Some(source);
                    },
                    IcmpReply::Other => {},
                }
            },
        }
        proof {
            if ends_path(p[i as int]) {
                assert(hop_reached(p));
            } else {
                assert forall|k: int| 0 <= k < p.len() && ends_path(#[trigger] p[k]) implies hop_reached(q) by {
                    assert(p[k] == q[k]);
                }
                if hop_reached(q) {
                    let k = choose|k: int| 0 <= k < q.len() && ends_path(#[trigger] q[k]);
                    assert(p[k] == q[k]);
                }
            }
        }
        i = i + 1;
    }
    proof {
        assert(outcomes@.subrange(0, outcomes@.len() as int) =~= outcomes@);
        lemma_rtts_within_sent(outcomes@);
    }
    let stats = aggregate(sent, &rtts);
    HopRecord { ttl, address, stats, reached }
}

/// The hops are numbered 1, 2, ... in order, and there are at most `max_ttl`.
pub open spec fn ttls_in_order(hops: Seq<HopRecord>, max_ttl: int) -> bool {
    &&& hops.len() <= max_ttl
    &&& forall|i: int| 0 <= i < hops.len() ==> (#[trigger] hops[i]).ttl == i + 1
}

/// State of one TTL sweep toward `target`.
pub struct PathProber {
    pub target: u32,
    /// Identifier carried by this sweep's Echo Requests.
    pub identifier: u16,
    pub max_ttl: u8,
    pub hops: Vec<HopRecord>,
}

impl PathProber {
    /// The sweep is over: a hop reached the destination, or every TTL up
    /// to the bound has been tried.
    pub open spec fn done_spec(&self) -> bool {
        self.hops@.len() >= self.max_ttl || (self.hops@.len() > 0 && self.hops@.last().reached)
    }

    pub open spec fn wf(&self) -> bool {
        &&& self.max_ttl >= 1
        &&& ttls_in_order(self.hops@, self.max_ttl as int)
        &&& forall|i: int| 0 <= i < self.hops@.len() - 1 ==> !(#[trigger] self.hops@[i]).reached
    }

    /// A sweep toward `target` that has probed nothing yet.
    pub fn new(target: u32, max_ttl: u8) -> (r: PathProber)
        requires
            max_ttl >= 1,
        ensures
            r.wf(),
            r.target == target,
            r.max_ttl == max_ttl,
            r.hops@.len() == 0,
    {
        PathProber { target, identifier: rand::random(), max_ttl, hops: Vec::new() }
    }

    /// The Echo Request to send with sequence number `seq`.
    pub fn request(&self, seq: u16) -> (r: Vec<u8>)
        ensures
            r@ == with_checksum(
                echo_template(self.identifier, seq),
                checksum_spec(echo_template(self.identifier, seq)),
            ),
            checksum_spec(r@) == 0,
    {
        encode_echo_request(self.identifier, seq)
    }

    /// The TTL to probe next, or `None` once the sweep is over.
    pub fn next_ttl(&self) -> (r: Option<u8>)
        requires
            self.wf(),
        ensures
            self.done_spec() <==> r is None,
            r matches Some(t) ==> t == self.hops@.len() + 1,
    {
        let n = self.hops.len();
        if n >= self.max_ttl as usize || (n > 0 && self.hops[n - 1].reached) {
            None
        } else {
            Some((n + 1) as u8)
        }
    }

    /// Records the outcomes of the probes sent at the next TTL.
    pub fn record_hop(&mut self, outcomes: &Vec<ProbeOutcome>)
        requires
            old(self).wf(),
            !old(self).done_spec(),
        ensures
            final(self).wf(),
            final(self).target == old(self).target,
            final(self).identifier == old(self).identifier,
            final(self).max_ttl == old(self).max_ttl,
            final(self).hops@.len() == old(self).hops@.len() + 1,
            final(self).hops@.drop_last() == old(self).hops@,
            final(self).hops@.last().summarizes(old(self).hops@.len() + 1int, outcomes@),
    {
        let ttl = (self.hops.len() + 1) as u8;
        let hop = summarize_hop(ttl, outcomes);
        self.hops.push(hop);
        assert(self.hops@.drop_last() =~= old(self).hops@);
    }

    /// The report of the sweep so far.
    pub fn into_report(self) -> (r: PathReport)
        requires
            self.wf(),
        ensures
            r.hops@ == self.hops@,
            r.reached == (self.hops@.len() > 0 && self.hops@.last().reached),
            ttls_in_order(r.hops@, self.max_ttl as int),
    {
        let n = self.hops.len();
        let reached = n > 0 && self.hops[n - 1].reached;
        PathReport { hops: self.hops, reached }
    }
}

/// Every report that a well-formed sweep yields has its hops numbered
/// 1, 2, ... in order, at most `max_ttl` of them, and only its last hop
/// can have reached the destination.
pub proof fn lemma_report_shape(p: PathProber)
    requires
        p.wf(),
    ensures
        p.hops@.len() <= p.max_ttl,
        forall|i: int| 0 <= i < p.hops@.len() ==> (#[trigger] p.hops@[i]).ttl == i + 1,
        forall|i: int| 0 <= i < p.hops@.len() - 1 ==> !(#[trigger] p.hops@[i]).reached,
{
}

} // verus!
