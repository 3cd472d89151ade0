//! The text the command-line interface prints: the policy check, the
//! operator status and a decision.
use vstd::prelude::*;
use crate::clock::{uuid_hyphenated, uuid_text};
use crate::config::{sorted_diagnostics, validate_config, AnemoiConfig, ConfigDiagnostic, ConfigValidationError, DiagnosticSeverity, DiagView};
use crate::model::{
    decision_action_debug, decision_action_debug_name, residency_state_str, residency_state_wire, Decision,
    DecisionReason, ResidencyState,
};
use crate::status::{GroupHealth, OperatorStatus, ResidentStatus, RuntimeStatus};
use crate::text::{decimal, owned, push_decimal, push_str};

verus! {

pub open spec fn severity_word(s: DiagnosticSeverity) -> Seq<char> {
    match s {
        DiagnosticSeverity::Error => "error"@,
        DiagnosticSeverity::Warning => "warning"@,
    }
}

/// The lines listing `diags`, one per diagnostic.
pub open spec fn diag_lines(diags: Seq<DiagView>) -> Seq<char>
    decreases diags.len(),
{
    if diags.len() == 0 {
        seq![]
    } else {
        let d = diags.last();
        diag_lines(diags.drop_last()) + "- "@ + severity_word(d.1) + " "@ + d.0 + ": "@ + d.2 + "\n"@
    }
}

/// The policy check report for diagnostics `diags`.
pub open spec fn policy_report(diags: Seq<DiagView>) -> Seq<char> {
    if diags.len() == 0 {
        "Policy configuration loaded successfully.\n"@
    } else {
        "Policy configuration has diagnostics:\n"@ + diag_lines(diags)
    }
}

/// The report of `anemoi policy check`: the configuration's diagnostics as
/// `validate_config` orders them, or a success line when there are none.
pub fn format_policy_check(config: &AnemoiConfig) -> (r: String)
    ensures
        r@ == policy_report(sorted_diagnostics(*config)),
{
    let diagnostics = validate_config(config);
    let ghost diags = diagnostics@.map_values(|d: ConfigDiagnostic| d@);
    if diagnostics.len() == 0 {
        proof {
            assert(diags.len() == 0);
        }
        return owned("Policy configuration loaded successfully.\n");
    }
    let mut output = owned("Policy configuration has diagnostics:\n");
    let mut i: usize = 0;
    while i < diagnostics.len()
        invariant
            i <= diagnostics@.len(),
            diags == diagnostics@.map_values(|d: ConfigDiagnostic| d@),
            output@ == "Policy configuration has diagnostics:\n"@ + diag_lines(diags.take(i as int)),
        decreases diagnostics@.len() - i,
    {
        proof {
            assert(diags.take(i + 1).drop_last() =~= diags.take(i as int));
        }
        let d = &diagnostics[i];
        let severity = match d.severity {
            DiagnosticSeverity::Error => "error",
            DiagnosticSeverity::Warning => "warning",
        };
        proof {
            reveal_strlit("error");
            reveal_strlit("warning");
        }
        push_str(&mut output, "- ");
        push_str(&mut output, severity);
        push_str(&mut output, " ");
        push_str(&mut output, d.path.as_str());
        push_str(&mut output, ": ");
        push_str(&mut output, d.message.as_str());
        push_str(&mut output, "\n");
        proof {
            assert(output@ =~= "Policy configuration has diagnostics:\n"@ + diag_lines(diags.take(i + 1)));
        }
        i = i + 1;
    }
    proof {
        assert(diags.take(diagnostics@.len() as int) =~= diags);
    }
    output
}

/// A severity as its variant name (`Error`, `Warning`).
pub open spec fn severity_name(s: DiagnosticSeverity) -> Seq<char> {
    match s {
        DiagnosticSeverity::Error => "Error"@,
        DiagnosticSeverity::Warning => "Warning"@,
    }
}

/// One line per diagnostic of `diags`, each after a line break.
pub open spec fn invalid_lines(diags: Seq<DiagView>) -> Seq<char>
    decreases diags.len(),
{
    if diags.len() == 0 {
        seq![]
    } else {
        let d = diags.last();
        invalid_lines(diags.drop_last()) + "\n- "@ + severity_name(d.1) + " "@ + d.0 + ": "@ + d.2
    }
}

impl ConfigValidationError {
    /// The error's message: `invalid Anemoi config`, then one line per
    /// diagnostic with its severity, path and message.
    pub fn message(&self) -> (r: String)
        ensures
            r@ == "invalid Anemoi config"@ + invalid_lines(self.diagnostics@.map_values(|d: ConfigDiagnostic| d@)),
    {
        let ghost diags = self.diagnostics@.map_values(|d: ConfigDiagnostic| d@);
        let mut output = owned("invalid Anemoi config");
        let mut i: usize = 0;
        while i < self.diagnostics.len()
            invariant
                i <= self.diagnostics@.len(),
                diags == self.diagnostics@.map_values(|d: ConfigDiagnostic| d@),
                output@ == "invalid Anemoi config"@ + invalid_lines(diags.take(i as int)),
            decreases self.diagnostics@.len() - i,
        {
            proof {
                assert(diags.take(i + 1).drop_last() =~= diags.take(i as int));
            }
            let d = &self.diagnostics[i];
            let severity = match d.severity {
                DiagnosticSeverity::Error => "Error",
                DiagnosticSeverity::Warning => "Warning",
            };
            proof {
                reveal_strlit("Error");
                reveal_strlit("Warning");
            }
            push_str(&mut output, "\n- ");
            push_str(&mut output, severity);
            push_str(&mut output, " ");
            push_str(&mut output, d.path.as_str());
            push_str(&mut output, ": ");
            push_str(&mut output, d.message.as_str());
            proof {
                assert(output@ =~= "invalid Anemoi config"@ + invalid_lines(diags.take(i + 1)));
            }
            i = i + 1;
        }
        proof {
            assert(diags.take(self.diagnostics@.len() as int) =~= diags);
        }
        output
    }
}

/// A residency state as the reports write it (its wire name).
pub fn format_residency_state(state: ResidencyState) -> (r: String)
    ensures
        r@ == residency_state_wire(state),
{
    owned(residency_state_str(state))
}

pub open spec fn idle_text(idle: Option<u64>) -> Seq<char> {
    match idle {
        Some(s) => decimal(s as nat) + "s"@,
        None => "unknown"@,
    }
}

pub open spec fn resident_lines(rs: Seq<ResidentStatus>) -> Seq<char>
    decreases rs.len(),
{
    if rs.len() == 0 {
        seq![]
    } else {
        let x = rs.last();
        resident_lines(rs.drop_last()) + "      - "@ + x.model_id@ + " ["@ + residency_state_wire(x.state) + "] idle: "@
            + idle_text(x.idle_secs) + "\n"@
    }
}

/// The block of the status report describing one runtime.
pub open spec fn runtime_block(rt: RuntimeStatus) -> Seq<char> {
    "  "@ + rt.runtime_id@ + " ("@ + rt.adapter@ + "): availability="@ + rt.availability@ + ", freshness="@
        + rt.freshness@ + "\n"@ + match rt.last_error {
        Some(e) => "    last error: "@ + e@ + "\n"@,
        None => seq![],
    } + "    active requests: "@ + decimal(rt.active_request_count as nat) + "\n"@ + if rt.residents@.len() == 0 {
        "    residents: none observed\n"@
    } else {
        "    residents:\n"@ + resident_lines(rt.residents@)
    }
}

pub open spec fn runtime_blocks(rts: Seq<RuntimeStatus>) -> Seq<char>
    decreases rts.len(),
{
    if rts.len() == 0 {
        seq![]
    } else {
        runtime_blocks(rts.drop_last()) + runtime_block(rts.last())
    }
}

pub open spec fn protection_words(keep_hot: bool, pinned: bool) -> Seq<char> {
    if keep_hot && pinned {
        "keep-hot, pinned"@
    } else if keep_hot {
        "keep-hot"@
    } else if pinned {
        "pinned"@
    } else {
        "no protection"@
    }
}

pub open spec fn group_lines(gs: Seq<GroupHealth>) -> Seq<char>
    decreases gs.len(),
{
    if gs.len() == 0 {
        seq![]
    } else {
        let g = gs.last();
        group_lines(gs.drop_last()) + "  "@ + g.group_id@ + ": "@ + g.health@ + " ("@ + protection_words(g.keep_hot, g.pinned)
            + ", "@ + decimal(g.hot_resident_count as nat) + "/"@ + decimal(g.member_count as nat) + " hot)\n"@
    }
}

pub open spec fn warning_lines(ws: Seq<String>) -> Seq<char>
    decreases ws.len(),
{
    if ws.len() == 0 {
        seq![]
    } else {
        warning_lines(ws.drop_last()) + "  - "@ + ws.last()@ + "\n"@
    }
}

/// The operator status report.
pub open spec fn status_report(s: OperatorStatus) -> Seq<char> {
    "Anemoi operator status\n======================\n"@ + "Live execution: "@ + (if s.live_execution_enabled {
        "enabled"@
    } else {
        "disabled (ANEMOI_ENABLE_LIVE_EXECUTE not set)"@
    }) + "\n"@ + "Reconciliation cache: "@ + (if s.cache_populated {
        "populated"@
    } else {
        "empty (governance state unknown until first inspection)"@
    }) + "\n"@ + "Active requests: "@ + decimal(s.active_request_count as nat) + "\n"@ + "Recent decisions: "@
        + decimal(s.recent_decision_count as nat) + "\n"@ + "\nRuntimes:\n"@ + runtime_blocks(s.runtimes@)
        + "\nResidency groups:\n"@ + group_lines(s.residency_groups@) + "\nStaging queue: total "@ + decimal(
        s.staging.total as nat,
    ) + " (blocked "@ + decimal(s.staging.blocked as nat) + ", pending "@ + decimal(s.staging.pending as nat)
        + ", failed "@ + decimal(s.staging.failed as nat) + ", completed "@ + decimal(s.staging.completed as nat)
        + ")\n"@ + "\nPolicy warnings:\n"@ + if s.policy_warnings@.len() == 0 {
        "  none\n"@
    } else {
        warning_lines(s.policy_warnings@)
    }
}

fn push_count(s: &mut String, n: usize)
    ensures
        final(s)@ == old(s)@ + decimal(n as nat),
{
    push_decimal(s, n as u64);
}

fn push_resident_lines(out: &mut String, rs: &Vec<ResidentStatus>)
    ensures
        final(out)@ == old(out)@ + resident_lines(rs@),
{
    let mut i: usize = 0;
    while i < rs.len()
        invariant
            i <= rs@.len(),
            out@ == old(out)@ + resident_lines(rs@.take(i as int)),
        decreases rs@.len() - i,
    {
        proof {
            assert(rs@.take(i + 1).drop_last() =~= rs@.take(i as int));
        }
        let x = &rs[i];
        push_str(out, "      - ");
        push_str(out, x.model_id.as_str());
        push_str(out, " [");
        push_str(out, residency_state_str(x.state));
        push_str(out, "] idle: ");
        match x.idle_secs {
            Some(s) => {
                push_decimal(out, s);
                push_str(out, "s");
            },
            None => push_str(out, "unknown"),
        }
        push_str(out, "\n");
        proof {
            assert(out@ =~= old(out)@ + resident_lines(rs@.take(i + 1)));
        }
        i = i + 1;
    }
    proof {
        assert(rs@.take(rs@.len() as int) =~= rs@);
    }
}

fn push_runtime_block(out: &mut String, rt: &RuntimeStatus)
    ensures
        final(out)@ == old(out)@ + runtime_block(*rt),
{
    push_str(out, "  ");
    push_str(out, rt.runtime_id.as_str());
    push_str(out, " (");
    push_str(out, rt.adapter.as_str());
    push_str(out, "): availability=");
    push_str(out, rt.availability.as_str());
    push_str(out, ", freshness=");
    push_str(out, rt.freshness.as_str());
    push_str(out, "\n");
    let ghost a = out@;
    match &rt.last_error {
        Some(e) => {
            push_str(out, "    last error: ");
            push_str(out, e.as_str());
            push_str(out, "\n");
        },
        None => {},
    }
    let ghost b = out@;
    push_str(out, "    active requests: ");
    push_count(out, rt.active_request_count);
    push_str(out, "\n");
    let ghost c = out@;
    if rt.residents.len() == 0 {
        push_str(out, "    residents: none observed\n");
    } else {
        push_str(out, "    residents:\n");
        push_resident_lines(out, &rt.residents);
    }
    proof {
        assert(out@ =~= old(out)@ + runtime_block(*rt));
    }
}

fn push_group_line(out: &mut String, g: &GroupHealth)
    ensures
        final(out)@ == old(out)@ + "  "@ + g.group_id@ + ": "@ + g.health@ + " ("@ + protection_words(g.keep_hot, g.pinned)
            + ", "@ + decimal(g.hot_resident_count as nat) + "/"@ + decimal(g.member_count as nat) + " hot)\n"@,
{
    let flags = if g.keep_hot && g.pinned {
        "keep-hot, pinned"
    } else if g.keep_hot {
        "keep-hot"
    } else if g.pinned {
        "pinned"
    } else {
        "no protection"
    };
    push_str(out, "  ");
    push_str(out, g.group_id.as_str());
    push_str(out, ": ");
    push_str(out, g.health.as_str());
    push_str(out, " (");
    push_str(out, flags);
    push_str(out, ", ");
    push_count(out, g.hot_resident_count);
    push_str(out, "/");
    push_count(out, g.member_count);
    push_str(out, " hot)\n");
    proof {
        assert(out@ =~= old(out)@ + "  "@ + g.group_id@ + ": "@ + g.health@ + " ("@ + protection_words(g.keep_hot, g.pinned)
            + ", "@ + decimal(g.hot_resident_count as nat) + "/"@ + decimal(g.member_count as nat) + " hot)\n"@);
    }
}

/// The operator status report: live-execution and cache state, counters,
/// each runtime with its residents, each residency group's health, the
/// staging queue and the policy warnings. Unknown and stale state is named
/// as such.
#[verifier::rlimit(40)]
pub fn format_status(status: &OperatorStatus) -> (r: String)
    ensures
        r@ == status_report(*status),
{
    let mut output = owned("Anemoi operator status\n======================\n");
    push_str(&mut output, "Live execution: ");
    if status.live_execution_enabled {
        push_str(&mut output, "enabled");
    } else {
        push_str(&mut output, "disabled (ANEMOI_ENABLE_LIVE_EXECUTE not set)");
    }
    push_str(&mut output, "\n");
    push_str(&mut output, "Reconciliation cache: ");
    if status.cache_populated {
        push_str(&mut output, "populated");
    } else {
        push_str(&mut output, "empty (governance state unknown until first inspection)");
    }
    push_str(&mut output, "\n");
    push_str(&mut output, "Active requests: ");
    push_count(&mut output, status.active_request_count);
    push_str(&mut output, "\n");
    push_str(&mut output, "Recent decisions: ");
    push_count(&mut output, status.recent_decision_count);
    push_str(&mut output, "\n");
    push_str(&mut output, "\nRuntimes:\n");
    let ghost head = output@;
    let mut i: usize = 0;
    while i < status.runtimes.len()
        invariant
            i <= status.runtimes@.len(),
            output@ == head + runtime_blocks(status.runtimes@.take(i as int)),
        decreases status.runtimes@.len() - i,
    {
        proof {
            assert(status.runtimes@.take(i + 1).drop_last() =~= status.runtimes@.take(i as int));
        }
        push_runtime_block(&mut output, &status.runtimes[i]);
        proof {
            assert(output@ =~= head + runtime_blocks(status.runtimes@.take(i + 1)));
        }
        i = i + 1;
    }
    proof {
        assert(status.runtimes@.take(status.runtimes@.len() as int) =~= status.runtimes@);
    }
    push_str(&mut output, "\nResidency groups:\n");
    let ghost head2 = output@;
    let mut i: usize = 0;
    while i < status.residency_groups.len()
        invariant
            i <= status.residency_groups@.len(),
            output@ == head2 + group_lines(status.residency_groups@.take(i as int)),
        decreases status.residency_groups@.len() - i,
    {
        proof {
            assert(status.residency_groups@.take(i + 1).drop_last() =~= status.residency_groups@.take(i as int));
        }
        push_group_line(&mut output, &status.residency_groups[i]);
        proof {
            assert(output@ =~= head2 + group_lines(status.residency_groups@.take(i + 1)));
        }
        i = i + 1;
    }
    proof {
        assert(status.residency_groups@.take(status.residency_groups@.len() as int) =~= status.residency_groups@);
    }
    push_str(&mut output, "\nStaging queue: total ");
    push_count(&mut output, status.staging.total);
    push_str(&mut output, " (blocked ");
    push_count(&mut output, status.staging.blocked);
    push_str(&mut output, ", pending ");
    push_count(&mut output, status.staging.pending);
    push_str(&mut output, ", failed ");
    push_count(&mut output, status.staging.failed);
    push_str(&mut output, ", completed ");
    push_count(&mut output, status.staging.completed);
    push_str(&mut output, ")\n");
    push_str(&mut output, "\nPolicy warnings:\n");
    let ghost head3 = output@;
    if status.policy_warnings.len() == 0 {
        push_str(&mut output, "  none\n");
    } else {
        let mut i: usize = 0;
        while i < status.policy_warnings.len()
            invariant
                i <= status.policy_warnings@.len(),
                output@ == head3 + warning_lines(status.policy_warnings@.take(i as int)),
            decreases status.policy_warnings@.len() - i,
        {
            proof {
                assert(status.policy_warnings@.take(i + 1).drop_last() =~= status.policy_warnings@.take(i as int));
            }
            push_str(&mut output, "  - ");
            push_str(&mut output, status.policy_warnings[i].as_str());
            push_str(&mut output, "\n");
            proof {
                assert(output@ =~= head3 + warning_lines(status.policy_warnings@.take(i + 1)));
            }
            i = i + 1;
        }
        proof {
            assert(status.policy_warnings@.take(status.policy_warnings@.len() as int) =~= status.policy_warnings@);
        }
    }
    proof {
        assert(output@ =~= status_report(*status));
    }
    output
}

pub open spec fn reason_lines(rs: Seq<DecisionReason>) -> Seq<char>
    decreases rs.len(),
{
    if rs.len() == 0 {
        seq![]
    } else {
        reason_lines(rs.drop_last()) + "- "@ + rs.last().detail@ + "\n"@
    }
}

/// The decision report: selected model and runtime (`none` when absent),
/// the action, the decision's id and one line per reason.
pub open spec fn decision_report(d: Decision) -> Seq<char> {
    "Selected: "@ + (match d.selected_model {
        Some(m) => m.0@,
        None => "none"@,
    }) + " via "@ + (match d.selected_runtime {
        Some(r) => r.0@,
        None => "none"@,
    }) + "\n"@ + "Action: "@ + decision_action_debug(d.action) + "\n"@ + "Decision ID: "@ + uuid_hyphenated(d.id)
        + "\n\n"@ + "Reasons:\n"@ + reason_lines(d.explanation.reasons@)
}

/// The report of `anemoi decide`.
pub fn format_decision(decision: &Decision) -> (r: String)
    ensures
        r@ == decision_report(*decision),
{
    let mut output = owned("Selected: ");
    match &decision.selected_model {
        Some(m) => push_str(&mut output, m.0.as_str()),
        None => push_str(&mut output, "none"),
    }
    push_str(&mut output, " via ");
    match &decision.selected_runtime {
        Some(r) => push_str(&mut output, r.0.as_str()),
        None => push_str(&mut output, "none"),
    }
    push_str(&mut output, "\n");
    push_str(&mut output, "Action: ");
    push_str(&mut output, decision_action_debug_name(decision.action));
    push_str(&mut output, "\n");
    push_str(&mut output, "Decision ID: ");
    let id = uuid_text(decision.id);
    push_str(&mut output, id.as_str());
    push_str(&mut output, "\n\n");
    push_str(&mut output, "Reasons:\n");
    let ghost head = output@;
    let reasons = &decision.explanation.reasons;
    let mut i: usize = 0;
    while i < reasons.len()
        invariant
            i <= reasons@.len(),
            output@ == head + reason_lines(reasons@.take(i as int)),
        decreases reasons@.len() - i,
    {
        proof {
            assert(reasons@.take(i + 1).drop_last() =~= reasons@.take(i as int));
        }
        push_str(&mut output, "- ");
        push_str(&mut output, reasons[i].detail.as_str());
        push_str(&mut output, "\n");
        proof {
            assert(output@ =~= head + reason_lines(reasons@.take(i + 1)));
        }
        i = i + 1;
    }
    proof {
        assert(reasons@.take(reasons@.len() as int) =~= reasons@);
        assert(output@ =~= decision_report(*decision));
    }
    output
}

} // verus!
