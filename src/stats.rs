//! Loss and round-trip statistics over the samples of one probe run.
//!
//! Round-trip times are whole microseconds; loss is kept in hundredths of a
//! percent, so that 100% is `LOSS_ALL`.
use vstd::prelude::*;
use crate::error::ProbeError;

verus! {

/// Loss, in hundredths of a percent, when no probe was answered.
pub const LOSS_ALL: u64 = 10000;

/// One echo attempt: its sequence number and, if answered, its round trip.
#[derive(Clone, Copy, Debug, PartialEq, Eq, Structural)]
pub struct ProbeSample {
    pub seq: u16,
    pub received: bool,
    /// Round-trip time in microseconds; meaningful only when `received`.
    pub rtt_us: u32,
}

/// Loss and round-trip statistics of a set of probes.
#[derive(Clone, Copy, Debug, PartialEq, Eq, Structural)]
pub struct AggregateStats {
    pub sent: usize,
    pub received: usize,
    /// Share of unanswered probes, in hundredths of a percent (0..=10000).
    pub loss: u64,
    pub min_us: u32,
    pub avg_us: u32,
    pub max_us: u32,
    /// Population standard deviation: the square root, rounded down, of the
    /// mean squared deviation of the round trips from `avg_us`.
    pub mdev_us: u32,
}

pub open spec fn seq_sum(s: Seq<u32>) -> int
    decreases s.len(),
{
    if s.len() == 0 {
        0
    } else {
        seq_sum(s.drop_last()) + s.last() as int
    }
}

pub open spec fn seq_min(s: Seq<u32>) -> int
    decreases s.len(),
{
    if s.len() <= 1 {
        if s.len() == 0 { 0 } else { s[0] as int }
    } else if (s.last() as int) < seq_min(s.drop_last()) {
        s.last() as int
    } else {
        seq_min(s.drop_last())
    }
}

pub open spec fn seq_max(s: Seq<u32>) -> int
    decreases s.len(),
{
    if s.len() <= 1 {
        if s.len() == 0 { 0 } else { s[0] as int }
    } else if (s.last() as int) > seq_max(s.drop_last()) {
        s.last() as int
    } else {
        seq_max(s.drop_last())
    }
}

/// Sum of the squared deviations of `s` from `a`.
pub open spec fn sq_dev_sum(s: Seq<u32>, a: int) -> int
    decreases s.len(),
{
    if s.len() == 0 {
        0
    } else {
        sq_dev_sum(s.drop_last(), a) + (s.last() - a) * (s.last() - a)
    }
}

/// Loss in hundredths of a percent: all of it when nothing was sent.
pub open spec fn loss_spec(sent: int, received: int) -> int {
    if sent == 0 {
        LOSS_ALL as int
    } else {
        (sent - received) * (LOSS_ALL as int) / sent
    }
}

/// `r` is the integer square root of `v`.
pub open spec fn is_isqrt(r: int, v: int) -> bool {
    0 <= r && r * r <= v < (r + 1) * (r + 1)
}

impl AggregateStats {
    /// These are the statistics of `sent` probes whose answered round trips
    /// are `rtts`: loss over the counts, the rest over `rtts` alone, and all
    /// round-trip fields zero when nothing was answered.
    pub open spec fn describes(self, sent: int, rtts: Seq<u32>) -> bool {
        &&& self.sent == sent
        &&& self.received == rtts.len()
        &&& self.loss == loss_spec(sent, rtts.len() as int)
        &&& if rtts.len() == 0 {
            self.min_us == 0 && self.avg_us == 0 && self.max_us == 0 && self.mdev_us == 0
        } else {
            &&& self.min_us == seq_min(rtts)
            &&& self.max_us == seq_max(rtts)
            &&& self.avg_us == seq_sum(rtts) / rtts.len() as int
            &&& is_isqrt(
                self.mdev_us as int,
                sq_dev_sum(rtts, self.avg_us as int) / rtts.len() as int,
            )
        }
    }
}

proof fn lemma_min_max_bound(s: Seq<u32>)
    requires
        s.len() > 0,
    ensures
        forall|i: int| 0 <= i < s.len() ==> seq_min(s) <= #[trigger] s[i] <= seq_max(s),
    decreases s.len(),
{
    if s.len() > 1 {
        let d = s.drop_last();
        lemma_min_max_bound(d);
        assert forall|i: int| 0 <= i < s.len() implies seq_min(s) <= #[trigger] s[i] <= seq_max(s) by {
            if i < d.len() {
                assert(s[i] == d[i]);
            }
        }
    }
}

proof fn lemma_sum_between(s: Seq<u32>, lo: int, hi: int)
    requires
        forall|i: int| 0 <= i < s.len() ==> lo <= #[trigger] s[i] <= hi,
    ensures
        lo * s.len() <= seq_sum(s) <= hi * s.len(),
    decreases s.len(),
{
    if s.len() > 0 {
        let d = s.drop_last();
        lemma_sum_between(d, lo, hi);
        let n = d.len() as int;
        assert(lo * (n + 1) == lo * n + lo) by (nonlinear_arith);
        assert(hi * (n + 1) == hi * n + hi) by (nonlinear_arith);
    }
}

/// Integer square root by bisection.
fn isqrt(v: u64) -> (r: u32)
    ensures
        is_isqrt(r as int, v as int),
{
    let mut lo: u64 = 0;
    let mut hi: u64 = 0x1_0000_0000;
    assert(v < hi * hi) by (nonlinear_arith)
        requires
            hi == 0x1_0000_0000,
            v <= 0xFFFF_FFFF_FFFF_FFFF,
    ;
    while hi - lo > 1
        invariant
            lo < hi <= 0x1_0000_0000,
            lo * lo <= v,
            v < hi * hi,
        decreases hi - lo,
    {
        let mid = lo + (hi - lo) / 2;
        assert(mid * mid < 0x1_0000_0000_0000_0000) by (nonlinear_arith)
            requires
                mid < 0x1_0000_0000,
        ;
        if mid * mid <= v {
            lo = mid;
        } else {
            hi = mid;
        }
    }
    lo as u32
}

/// Statistics of `sent` probes whose answered round trips are `rtts`.
pub fn aggregate(sent: usize, rtts: &Vec<u32>) -> (r: AggregateStats)
    requires
        rtts@.len() <= sent,
    ensures
        r.describes(sent as int, rtts@),
{
    let n = rtts.len();
    let loss: u64 = if sent == 0 {
        LOSS_ALL
    } else {
        assert((sent - n) * 10000 <= sent * 10000) by (nonlinear_arith)
            requires
                n <= sent,
        ;
        assert((sent - n) * 10000 / sent as int <= 10000) by (nonlinear_arith)
            requires
                (sent - n) * 10000 <= sent * 10000,
                sent > 0,
        ;
        (((sent - n) as u128 * LOSS_ALL as u128) / (sent as u128)) as u64
    };
    if n == 0 {
        return AggregateStats {
            sent,
            received: 0,
            loss,
            min_us: 0,
            avg_us: 0,
            max_us: 0,
            mdev_us: 0,
        };
    }
    let mut sum: u128 = 0;
    let mut min: u32 = rtts[0];
    let mut max: u32 = rtts[0];
    let mut i: usize = 0;
    while i < n
        invariant
            n == rtts@.len(),
            0 < n,
            i <= n,
            sum == seq_sum(rtts@.subrange(0, i as int)),
            sum <= i * 0xFFFF_FFFF,
            i == 0 ==> min == rtts@[0] && max == rtts@[0],
            i > 0 ==> min == seq_min(rtts@.subrange(0, i as int)),
            i > 0 ==> max == seq_max(rtts@.subrange(0, i as int)),
        decreases n - i,
    {
        let x = rtts[i];
        proof {
            let p = rtts@.subrange(0, i + 1);
            assert(p.drop_last() =~= rtts@.subrange(0, i as int));
        }
        sum = sum + x as u128;
        if x < min {
            min = x;
        }
        if x > max {
            max = x;
        }
        i = i + 1;
    }
    proof {
        assert(rtts@.subrange(0, n as int) =~= rtts@);
        lemma_min_max_bound(rtts@);
        lemma_sum_between(rtts@, min as int, max as int);
        assert(min as int <= sum as int / n as int <= max as int) by (nonlinear_arith)
            requires
                min * n <= sum,
                sum <= max * n,
                n > 0,
        ;
    }
    let avg: u32 = (sum / n as u128) as u32;
    let mut dev: u128 = 0;
    let mut j: usize = 0;
    while j < n
        invariant
            n == rtts@.len(),
            0 < n,
            j <= n,
            dev == sq_dev_sum(rtts@.subrange(0, j as int), avg as int),
            dev <= j * 0xFFFF_FFFE_0000_0001,
        decreases n - j,
    {
        let x = rtts[j];
        proof {
            let p = rtts@.subrange(0, j + 1);
            assert(p.drop_last() =~= rtts@.subrange(0, j as int));
        }
        let d: u128 = if x >= avg { (x - avg) as u128 } else { (avg - x) as u128 };
        assert(d * d <= 0xFFFF_FFFE_0000_0001) by (nonlinear_arith)
            requires
                d <= 0xFFFF_FFFF,
        ;
        assert(d * d == (x - avg) * (x - avg)) by (nonlinear_arith)
            requires
                d == x - avg || d == avg - x,
        ;
        dev = dev + d * d;
        j = j + 1;
    }
    proof {
        assert(rtts@.subrange(0, n as int) =~= rtts@);
        assert(dev as int / n as int <= 0xFFFF_FFFE_0000_0001) by (nonlinear_arith)
            requires
                dev <= n * 0xFFFF_FFFE_0000_0001,
                n > 0,
        ;
    }
    let mdev = isqrt((dev / n as u128) as u64);
    AggregateStats { sent, received: n, loss, min_us: min, avg_us: avg, max_us: max, mdev_us: mdev }
}

/// Loss lies between none and all of it; where all probes were lost, every
/// round-trip field is zero.
pub proof fn lemma_loss_bounds(st: AggregateStats, sent: int, rtts: Seq<u32>)
    requires
        rtts.len() <= sent,
        st.describes(sent, rtts),
    ensures
        0 <= st.loss <= LOSS_ALL,
        st.loss == LOSS_ALL ==> st.min_us == 0 && st.avg_us == 0 && st.max_us == 0
            && st.mdev_us == 0,
{
    let n = rtts.len() as int;
    if sent > 0 {
        assert(0 <= (sent - n) * 10000 / sent <= 10000) by (nonlinear_arith)
            requires
                0 <= n <= sent,
                sent > 0,
        ;
        if n > 0 {
            assert((sent - n) * 10000 / sent < 10000) by (nonlinear_arith)
                requires
                    0 < n <= sent,
            ;
        }
    }
}

/// Where at least one probe was answered, `min <= avg <= max`.
pub proof fn lemma_avg_between(st: AggregateStats, sent: int, rtts: Seq<u32>)
    requires
        rtts.len() > 0,
        st.describes(sent, rtts),
    ensures
        st.min_us <= st.avg_us <= st.max_us,
{
    let n = rtts.len() as int;
    lemma_min_max_bound(rtts);
    lemma_sum_between(rtts, seq_min(rtts), seq_max(rtts));
    let lo = seq_min(rtts);
    let hi = seq_max(rtts);
    let sum = seq_sum(rtts);
    assert(lo <= sum / n <= hi) by (nonlinear_arith)
        requires
            lo * n <= sum,
            sum <= hi * n,
            n > 0,
    ;
}

/// The round trips of the answered samples, in order.
pub open spec fn received_rtts(s: Seq<ProbeSample>) -> Seq<u32>
    decreases s.len(),
{
    if s.len() == 0 {
        Seq::empty()
    } else if s.last().received {
        received_rtts(s.drop_last()).push(s.last().rtt_us)
    } else {
        received_rtts(s.drop_last())
    }
}

proof fn lemma_received_rtts_len(s: Seq<ProbeSample>)
    ensures
        received_rtts(s).len() <= s.len(),
    decreases s.len(),
{
    if s.len() > 0 {
        lemma_received_rtts_len(s.drop_last());
    }
}

/// Statistics of a run's samples. A run in which nothing was sent has none.
pub fn summarize(samples: &Vec<ProbeSample>) -> (r: Result<AggregateStats, ProbeError>)
    ensures
        samples@.len() == 0 <==> r is Err,
        r is Err ==> r == Err::<AggregateStats, ProbeError>(ProbeError::TransportUnavailable),
        r matches Ok(st) ==> st.describes(samples@.len() as int, received_rtts(samples@)),
{
    if samples.len() == 0 {
        return Err(ProbeError::TransportUnavailable);
    }
    let mut rtts: Vec<u32> = Vec::new();
    let mut i: usize = 0;
    while i < samples.len()
        invariant
            i <= samples@.len(),
            rtts@ == received_rtts(samples@.subrange(0, i as int)),
        decreases samples@.len() - i,
    {
        proof {
            assert(samples@.subrange(0, i + 1).drop_last() =~= samples@.subrange(0, i as int));
        }
        if samples[i].received {
            rtts.push(samples[i].rtt_us);
        }
        i = i + 1;
    }
    proof {
        assert(samples@.subrange(0, samples@.len() as int) =~= samples@);
        lemma_received_rtts_len(samples@);
    }
    Ok(aggregate(samples.len(), &rtts))
}

} // verus!
