//! Statistics over a training session.
use vstd::prelude::*;
use crate::models::metrics::TrainingSession;

verus! {

/// Change in the trade count from the first to the last record; 0 where the
/// session has fewer than two records.
pub open spec fn trade_delta<F>(session: TrainingSession<F>) -> int {
    let r = session.records@;
    if r.len() < 2 {
        0
    } else {
        r.last().trades as int - r[0].trades as int
    }
}

/// Statistics over a training session.
pub struct Statistics;

impl Statistics {
    /// How many more trades the last record made than the first one (negative
    /// when fewer).
    pub fn trade_count_delta<F>(session: &TrainingSession<F>) -> (r: i64)
        ensures
            r == trade_delta(*session),
            session.records@.len() >= 2 ==> r == session.records@.last().trades as int
                - session.records@[0].trades as int,
            session.records@.len() < 2 ==> r == 0,
    {
        let n = session.records.len();
        if n < 2 {
            return 0;
        }
        let first = session.records[0].trades as i64;
        let last = session.records[n - 1].trades as i64;
        last - first
    }
}

/// The trade-count change is the last record's trades minus the first
/// record's, however many records lie between; 0 for fewer than two records.
pub proof fn lemma_trade_delta_is_last_minus_first<F>(session: TrainingSession<F>)
    ensures
        session.records@.len() >= 2 ==> trade_delta(session) == session.records@[session.records@.len()
            - 1].trades as int - session.records@[0].trades as int,
        session.records@.len() < 2 ==> trade_delta(session) == 0,
{
}

} // verus!
