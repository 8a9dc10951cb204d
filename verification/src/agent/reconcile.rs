//! Rejoining the master: which expected services this node deploys, which
//! it recreates because their spec changed while it was away, and which it
//! leaves alone.

use vstd::prelude::*;

use crate::agent::docker_state::WorkloadStatus;
use crate::agent::reporting::WorkloadReport;
use crate::text::{owned, same_text, views};

verus! {

/// The services the reports show running, in order.
pub open spec fn running_names_spec(rs: Seq<WorkloadReport>) -> Seq<Seq<char>>
    decreases rs.len(),
{
    if rs.len() == 0 {
        Seq::empty()
    } else if rs.last().status@ == "running"@ {
        running_names_spec(rs.drop_last()).push(rs.last().service_name@)
    } else {
        running_names_spec(rs.drop_last())
    }
}

/// The services the reports show running: only a container in the running
/// state counts; an exited or dead one must be redeployed.
pub fn running_names(reports: &Vec<WorkloadReport>) -> (res: Vec<String>)
    ensures
        views(res@) == running_names_spec(reports@),
{
    let mut res: Vec<String> = Vec::new();
    let mut i: usize = 0;
    while i < reports.len()
        invariant
            i <= reports.len(),
            views(res@) == running_names_spec(reports@.take(i as int)),
        decreases reports.len() - i,
    {
        assert(reports@.take(i + 1).drop_last() =~= reports@.take(i as int));
        assert(reports@.take(i + 1).last() == reports@[i as int]);
        if same_text(reports[i].status.as_str(), "running") {
            let ghost before = views(res@);
            let n = owned(reports[i].service_name.as_str());
            res.push(n);
            assert(views(res@) =~= before.push(n@));
        }
        i = i + 1;
    }
    assert(reports@.take(i as int) =~= reports@);
    res
}

/// Whether the running container was created from a different spec than
/// the one now expected. Only a definite mismatch counts: a spec without a
/// fingerprint (from an older master), a container without one (created
/// before fingerprinting) or a fingerprint that cannot be read leaves the
/// container running.
pub open spec fn spec_drifted_spec(want: Option<Seq<char>>, have: Result<Option<Seq<char>>, Seq<char>>) -> bool {
    match want {
        None => false,
        Some(w) => match have {
            Ok(Some(h)) => h != w,
            _ => false,
        },
    }
}

/// Whether a running container's spec fingerprint `have` (as read, or why
/// it could not be) shows a different spec than `want`.
pub fn spec_drifted(want: Option<&str>, have: Result<Option<String>, String>) -> (res: bool)
    ensures
        res == spec_drifted_spec(
            match want {
                Some(w) => Some(w@),
                None => None,
            },
            match have {
                Ok(Some(h)) => Ok(Some(h@)),
                Ok(None) => Ok(None),
                Err(e) => Err(e@),
            },
        ),
{
    let w = match want {
        Some(w) => w,
        None => {
            return false;
        },
    };
    match have {
        Ok(Some(h)) => !same_text(h.as_str(), w),
        _ => false,
    }
}

/// What reconciling does with one expected service.
#[derive(Clone, Copy, Debug, PartialEq, Eq, Structural)]
pub enum ReconcileAction {
    /// Not running: deploy it.
    Deploy,
    /// Running an outdated spec: recreate it.
    Redeploy,
    /// Running the expected spec, unknown to this agent: record it.
    Adopt,
    /// Running the expected spec and known: nothing to do.
    Skip,
}

/// Whether a service counts as running: the agent tracks it as running,
/// or the runtime reports its container running (an unreadable status is a
/// stopped one).
pub open spec fn is_running_spec(known: bool, probe: Option<WorkloadStatus>) -> bool {
    known || probe == Some(WorkloadStatus::Running)
}

/// What reconciling does with a service that `known` tells whether the
/// agent tracks as running, `probe` what the runtime reports (none if it
/// could not tell), and `drifted` whether its running spec is outdated.
pub open spec fn reconcile_action_spec(known: bool, probe: Option<WorkloadStatus>, drifted: bool) -> ReconcileAction {
    if is_running_spec(known, probe) {
        if drifted {
            ReconcileAction::Redeploy
        } else if known {
            ReconcileAction::Skip
        } else {
            ReconcileAction::Adopt
        }
    } else {
        ReconcileAction::Deploy
    }
}

/// Whether a service counts as running.
pub fn is_running(known: bool, probe: Option<WorkloadStatus>) -> (res: bool)
    ensures
        res == is_running_spec(known, probe),
{
    known || match probe {
        Some(s) => s == WorkloadStatus::Running,
        None => false,
    }
}

/// What reconciling does with one expected service.
pub fn reconcile_action(known: bool, probe: Option<WorkloadStatus>, drifted: bool) -> (res: ReconcileAction)
    ensures
        res == reconcile_action_spec(known, probe, drifted),
{
    if is_running(known, probe) {
        if drifted {
            ReconcileAction::Redeploy
        } else if known {
            ReconcileAction::Skip
        } else {
            ReconcileAction::Adopt
        }
    } else {
        ReconcileAction::Deploy
    }
}

/// Whether a service is known as running.
pub fn is_tracked(running: &Vec<String>, name: &String) -> (res: bool)
    ensures
        res == views(running@).contains(name@),
{
    crate::ai::monitor_plan::contains_name(running, name)
}

/// Reconciling converges: a running service whose container carries the
/// expected spec is never recreated, so a second pass with the same specs
/// deploys nothing; and a spec or a container without a fingerprint never
/// counts as changed.
pub proof fn law_reconcile_converges(
    known: bool,
    probe: Option<WorkloadStatus>,
    want: Option<Seq<char>>,
    have: Result<Option<Seq<char>>, Seq<char>>,
)
    ensures
        is_running_spec(known, probe) && match (want, have) {
            (Some(w), Ok(Some(h))) => h == w,
            _ => true,
        } ==> reconcile_action_spec(known, probe, spec_drifted_spec(want, have)) != ReconcileAction::Deploy
            && reconcile_action_spec(known, probe, spec_drifted_spec(want, have)) != ReconcileAction::Redeploy,
        want is None ==> !spec_drifted_spec(want, have),
        have == Ok::<Option<Seq<char>>, Seq<char>>(None) ==> !spec_drifted_spec(want, have),
        !is_running_spec(known, probe) ==> reconcile_action_spec(known, probe, spec_drifted_spec(want, have))
            == ReconcileAction::Deploy,
{
}

/// An outdated container is never kept: a service that counts as running
/// (tracked by the agent, or reported running by the runtime) whose spec
/// drifted is redeployed, whether or not the agent tracked it; it is kept
/// (adopted or skipped) only when running the expected spec; and it is
/// deployed exactly when it does not count as running.
pub proof fn law_drift_is_redeployed(known: bool, probe: Option<WorkloadStatus>, drifted: bool)
    ensures
        (known || probe == Some(WorkloadStatus::Running)) && drifted ==> reconcile_action_spec(known, probe, drifted)
            == ReconcileAction::Redeploy,
        reconcile_action_spec(known, probe, drifted) == ReconcileAction::Adopt || reconcile_action_spec(known, probe, drifted)
            == ReconcileAction::Skip ==> !drifted && (known || probe == Some(WorkloadStatus::Running)),
        (reconcile_action_spec(known, probe, drifted) == ReconcileAction::Deploy) == !(known || probe == Some(
            WorkloadStatus::Running,
        )),
{
}

} // verus!
