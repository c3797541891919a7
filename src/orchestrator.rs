//! Joins the results of the two probes run against one target.
use vstd::prelude::*;
use crate::error::ProbeError;
use crate::path::PathReport;
use crate::stats::AggregateStats;

verus! {

/// Combines the sampler's and the prober's results. A failure to resolve the
/// target fails the whole run; any other failure leaves only its own probe
/// without a result.
pub fn join_results(
    sampler: Result<AggregateStats, ProbeError>,
    prober: Result<PathReport, ProbeError>,
) -> (r: Result<(Option<AggregateStats>, Option<PathReport>), ProbeError>)
    ensures
        (sampler == Err::<AggregateStats, ProbeError>(ProbeError::ResolutionFailure)
            || prober matches Err(ProbeError::ResolutionFailure)) <==> r is Err,
        r is Err ==> r matches Err(ProbeError::ResolutionFailure),
        r matches Ok((s, _)) ==> (match sampler {
            Ok(st) => s == Some(st),
            Err(_) => s is None,
        }),
        r matches Ok((_, p)) ==> (match prober {
            Ok(rep) => p == Some(rep),
            Err(_) => p is None,
        }),
{
    let sampler_failed_resolution = match &sampler {
        Err(ProbeError::ResolutionFailure) => true,
        _ => false,
    };
    let prober_failed_resolution = match &prober {
        Err(ProbeError::ResolutionFailure) => true,
        _ => false,
    };
    if sampler_failed_resolution || prober_failed_resolution {
        return Err(ProbeError::ResolutionFailure);
    }
    let s = match sampler {
        Ok(st) => Some(st),
        Err(_) => None,
    };
    let p = match prober {
        Ok(rep) => Some(rep),
        Err(_) => None,
    };
    Ok((s, p))
}

} // verus!
