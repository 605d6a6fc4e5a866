//! Success statuses and the risk score of a training run.
use vstd::prelude::*;

verus! {

/// Outcome of judging a metric, or a risk score, against its thresholds.
#[derive(Debug, Clone, Copy, PartialEq, Eq, Structural)]
pub enum Status {
    Success,
    Warning,
    Danger,
}

/// How serious a status is: success 0, warning 1, danger 2.
pub open spec fn severity(s: Status) -> nat {
    match s {
        Status::Success => 0,
        Status::Warning => 1,
        Status::Danger => 2,
    }
}

impl Status {
    /// The symbol that marks this status in reports.
    pub fn emoji(&self) -> (r: &'static str)
        ensures
            r@ == (match *self {
                Status::Success => "✅"@,
                Status::Warning => "⚠️"@,
                Status::Danger => "🔴"@,
            }),
    {
        match self {
            Status::Success => "✅",
            Status::Warning => "⚠️",
            Status::Danger => "🔴",
        }
    }

    /// The colour name that renders this status.
    pub fn color_class(&self) -> (r: &'static str)
        ensures
            r@ == (match *self {
                Status::Success => "green"@,
                Status::Warning => "orange"@,
                Status::Danger => "red"@,
            }),
    {
        match self {
            Status::Success => "green",
            Status::Warning => "orange",
            Status::Danger => "red",
        }
    }
}

/// Risk band of a score: below 30 low, 30 to 59 medium, from 60 high.
pub open spec fn risk_status(score: int) -> Status {
    if score <= 29 {
        Status::Success
    } else if score <= 59 {
        Status::Warning
    } else {
        Status::Danger
    }
}

/// Five contributions to the risk score, in the order pnl, win rate, profit
/// factor, Sharpe ratio and drawdown, added and capped at 100.
pub open spec fn risk_total(parts: [u8; 5]) -> int {
    let sum = parts[0] as int + parts[1] as int + parts[2] as int + parts[3] as int
        + parts[4] as int;
    if sum < 100 {
        sum
    } else {
        100
    }
}

/// Risk score of a training run, from 0 (healthy) to 100 (stop training).
pub struct RiskScore;

impl RiskScore {
    /// Adds up the per-metric risk contributions and caps the score at 100.
    pub fn combine(parts: [u8; 5]) -> (score: u8)
        ensures
            score == risk_total(parts),
            score <= 100,
    {
        let sum: u16 = parts[0] as u16 + parts[1] as u16 + parts[2] as u16 + parts[3] as u16
            + parts[4] as u16;
        if sum < 100 {
            sum as u8
        } else {
            100
        }
    }

    /// The risk band of a score and the text that names it.
    pub fn classify(score: u8) -> (r: (Status, &'static str))
        ensures
            r.0 == risk_status(score as int),
            r.1@ == (match r.0 {
                Status::Success => "DÜŞÜK RİSK 🟢"@,
                Status::Warning => "ORTA RİSK 🟡"@,
                Status::Danger => "YÜKSEK RİSK 🔴"@,
            }),
    {
        if score <= 29 {
            (Status::Success, "DÜŞÜK RİSK 🟢")
        } else if score <= 59 {
            (Status::Warning, "ORTA RİSK 🟡")
        } else {
            (Status::Danger, "YÜKSEK RİSK 🔴")
        }
    }
}

/// A higher risk score never falls in a less severe band than a lower one.
pub proof fn lemma_risk_band_monotone(a: u8, b: u8)
    requires
        a <= b,
    ensures
        severity(risk_status(a as int)) <= severity(risk_status(b as int)),
{
}

/// Whatever the five contributions, the combined risk score lies in 0..=100,
/// and it is 100 exactly when the contributions add up to 100 or more.
pub proof fn lemma_risk_total_range(parts: [u8; 5])
    ensures
        0 <= risk_total(parts) <= 100,
        (risk_total(parts) == 100) == (parts[0] + parts[1] + parts[2] + parts[3] + parts[4] >= 100),
{
}

} // verus!
