//! The integer side of the resource pressure model: its inputs, the
//! structured reasons it gives, and the penalties chosen once the memory
//! fractions have been compared with their thresholds.
use vstd::prelude::*;
use crate::model::RuntimeMemorySnapshot;
use crate::text::{decimal, owned, push_decimal, push_str};

verus! {

/// Inputs required to assess pressure for a single candidate placement.
#[derive(Debug, Clone, Copy)]
pub struct PressureInputs<'a> {
    pub memory: &'a RuntimeMemorySnapshot,
    pub vram_required_mb: Option<u64>,
    pub ram_required_mb: Option<u64>,
    /// Whether placing this candidate would load the model fresh (and thus
    /// add its memory requirement to the runtime). Reusing a resident model
    /// does not increase memory pressure.
    pub is_cold_load: bool,
    pub active_request_count: usize,
}

/// A single structured pressure reason.
#[derive(Debug, PartialEq, Eq)]
pub struct PressureReason {
    pub code: String,
    pub detail: String,
    pub impact: i32,
}

impl Clone for PressureReason {
    fn clone(&self) -> (r: Self)
        ensures
            r.code@ == self.code@,
            r.detail@ == self.detail@,
            r.impact == self.impact,
    {
        PressureReason { code: self.code.clone(), detail: self.detail.clone(), impact: self.impact }
    }
}

/// The memory a placement would occupy: what is used now, plus the model's
/// requirement when it is loaded fresh (an unknown usage or requirement
/// counts as zero).
pub open spec fn projected_usage(used: Option<u64>, is_cold_load: bool, required: Option<u64>) -> int {
    let u: int = match used {
        Some(u) => u as int,
        None => 0,
    };
    let extra: int = match required {
        Some(r) => if is_cold_load { r as int } else { 0 },
        None => 0,
    };
    u + extra
}

/// The megabytes a placement would occupy; see `projected_usage`.
pub fn projected_usage_mb(used: Option<u64>, is_cold_load: bool, required: Option<u64>) -> (r: u64)
    requires
        projected_usage(used, is_cold_load, required) <= u64::MAX,
    ensures
        r == projected_usage(used, is_cold_load, required),
{
    let u = match used {
        Some(u) => u,
        None => 0,
    };
    let extra = if is_cold_load {
        match required {
            Some(r) => r,
            None => 0,
        }
    } else {
        0
    };
    u + extra
}

/// The penalty for a placement once its projected fraction has been compared
/// with the thresholds: only a cold load is penalized, by the high penalty
/// at or above the high threshold, else by the elevated penalty at or above
/// the elevated threshold.
pub open spec fn pressure_impact_spec(is_cold_load: bool, at_high: bool, at_elevated: bool, high_penalty: i32, elevated_penalty: i32) -> i32 {
    if !is_cold_load {
        0
    } else if at_high {
        high_penalty
    } else if at_elevated {
        elevated_penalty
    } else {
        0
    }
}

/// The penalty for a placement; see `pressure_impact_spec`.
pub fn pressure_impact(is_cold_load: bool, at_high: bool, at_elevated: bool, high_penalty: i32, elevated_penalty: i32) -> (r: i32)
    ensures
        r == pressure_impact_spec(is_cold_load, at_high, at_elevated, high_penalty, elevated_penalty),
{
    if !is_cold_load {
        0
    } else if at_high {
        high_penalty
    } else if at_elevated {
        elevated_penalty
    } else {
        0
    }
}

/// The penalty for the active requests on the target runtime: none when
/// idle, else `each` per request (the count taken as an `i32`), no lower
/// than `floor`.
pub fn active_request_impact(each: i32, floor: i32, count: usize) -> (r: i32)
    requires
        i32::MIN <= each * (count as i32) <= i32::MAX,
    ensures
        r == if count == 0 {
            0
        } else if each * (count as i32) >= floor {
            each * (count as i32)
        } else {
            floor as int
        },
{
    if count == 0 {
        0
    } else {
        let n = count as i32;
        let p = each * n;
        if p >= floor {
            p
        } else {
            floor
        }
    }
}

/// The reason for a dimension whose capacity is unknown: no pressure is
/// assumed and no credit given.
pub fn unknown_capacity_reason(dimension: &str) -> (r: PressureReason)
    ensures
        r.code@ == "pressure."@ + dimension@,
        r.detail@ == dimension@ + " capacity is unknown; treating residency as unproven and assigning no pressure credit"@,
        r.impact == 0,
{
    let mut code = owned("pressure.");
    push_str(&mut code, dimension);
    let mut detail = owned(dimension);
    push_str(&mut detail, " capacity is unknown; treating residency as unproven and assigning no pressure credit");
    PressureReason { code, detail, impact: 0 }
}

/// The reason for a dimension whose pressure is `current_pct` percent now
/// and `projected_pct` percent after the placement.
pub fn measured_pressure_reason(dimension: &str, current_pct: u64, projected_pct: u64, impact: i32) -> (r: PressureReason)
    ensures
        r.code@ == "pressure."@ + dimension@,
        r.detail@ == dimension@ + " pressure is "@ + decimal(current_pct as nat) + "% now and "@ + decimal(projected_pct as nat)
            + "% projected after this placement"@,
        r.impact == impact,
{
    let mut code = owned("pressure.");
    push_str(&mut code, dimension);
    let mut detail = owned(dimension);
    push_str(&mut detail, " pressure is ");
    push_decimal(&mut detail, current_pct);
    push_str(&mut detail, "% now and ");
    push_decimal(&mut detail, projected_pct);
    push_str(&mut detail, "% projected after this placement");
    PressureReason { code, detail, impact }
}

/// The reason for the active requests on the target runtime.
pub fn active_requests_reason(count: usize, impact: i32) -> (r: PressureReason)
    ensures
        r.code@ == "pressure.active_requests"@,
        r.detail@ == "runtime is serving "@ + decimal(count as nat) + " active request(s)"@,
        r.impact == impact,
{
    let code = owned("pressure.active_requests");
    let mut detail = owned("runtime is serving ");
    push_decimal(&mut detail, count as u64);
    push_str(&mut detail, " active request(s)");
    PressureReason { code, detail, impact }
}

} // verus!
