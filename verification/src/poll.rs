//! The poll loop's state machine: one tick interprets one fetch outcome,
//! a success overwrites the published gauge values, a failure leaves them
//! untouched.

use crate::repository_stats::{FetchError, RepoStats};
use vstd::prelude::*;

verus! {

/// Effect of one tick on the published gauge values.
pub open spec fn spec_tick(
    published: Option<RepoStats>,
    outcome: Result<RepoStats, FetchError>,
) -> Option<RepoStats> {
    match outcome {
        Ok(stats) => Some(stats),
        Err(_) => published,
    }
}

/// The published gauge values after a whole run of ticks, in order.
pub open spec fn run_ticks(
    published: Option<RepoStats>,
    outcomes: Seq<Result<RepoStats, FetchError>>,
) -> Option<RepoStats>
    decreases outcomes.len(),
{
    if outcomes.len() == 0 {
        published
    } else {
        run_ticks(spec_tick(published, outcomes[0]), outcomes.drop_first())
    }
}

/// What the exporter bridge has published: the values of the most recent
/// successful fetch, or nothing if no fetch has ever succeeded.
pub struct GaugeState {
    /// The pair of gauge values last written, if any.
    pub published: Option<RepoStats>,
}

impl GaugeState {
    /// Fresh state: the gauges are still unset.
    pub fn new() -> (r: Self)
        ensures
            r.published is None,
    {
        GaugeState { published: None }
    }

    /// One tick of the poll loop: a successful fetch overwrites the
    /// published values; a failed one leaves the previous values (or
    /// absence) untouched, the error being only logged by the caller.
    pub fn on_tick(&mut self, outcome: Result<RepoStats, FetchError>)
        ensures
            final(self).published == spec_tick(old(self).published, outcome),
    {
        match outcome {
            Ok(stats) => {
                self.published = Some(stats);
            },
            Err(_) => {
            },
        }
    }
}

/// If no tick of a run succeeds, the published values never change.
pub proof fn lemma_run_no_success(
    published: Option<RepoStats>,
    outcomes: Seq<Result<RepoStats, FetchError>>,
)
    requires
        forall|k: int| 0 <= k < outcomes.len() ==> !(outcomes[k] is Ok),
    ensures
        run_ticks(published, outcomes) == published,
    decreases outcomes.len(),
{
    if outcomes.len() > 0 {
        assert(forall|k: int|
            0 <= k < outcomes.drop_first().len() ==> outcomes.drop_first()[k] == outcomes[k + 1]);
        lemma_run_no_success(published, outcomes.drop_first());
    }
}

/// After any run of ticks, the published gauge values are exactly those
/// of the most recent successful fetch, not of the most recent tick.
pub proof fn lemma_run_tracks_latest_success(
    published: Option<RepoStats>,
    outcomes: Seq<Result<RepoStats, FetchError>>,
    i: int,
)
    requires
        0 <= i < outcomes.len(),
        outcomes[i] is Ok,
        forall|k: int| i < k < outcomes.len() ==> !(outcomes[k] is Ok),
    ensures
        run_ticks(published, outcomes) == Some(outcomes[i]->Ok_0),
    decreases outcomes.len(),
{
    assert(forall|k: int|
        0 <= k < outcomes.drop_first().len() ==> outcomes.drop_first()[k] == outcomes[k + 1]);
    if i == 0 {
        lemma_run_no_success(Some(outcomes[0]->Ok_0), outcomes.drop_first());
    } else {
        lemma_run_tracks_latest_success(
            spec_tick(published, outcomes[0]),
            outcomes.drop_first(),
            i - 1,
        );
    }
}

} // verus!
