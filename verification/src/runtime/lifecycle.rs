//! The course of a run: which step follows which, and what is cleaned up when.
use vstd::prelude::*;

use crate::error;
use crate::error::NpxcError;

verus! {

/// How a run ended.
#[derive(Debug)]
pub enum Ending {
    /// The session ended by itself, or there was none to start.
    Success,
    /// This went wrong.
    Failed(NpxcError),
    /// The user interrupted the session.
    Interrupted,
}

/// A step of a run.
#[derive(Debug)]
pub enum RunStep {
    /// Print the plan.
    ShowPlan,
    /// Provide the image.
    EnsureImage,
    /// Record the version that was resolved. A failure is only logged.
    PinVersion,
    /// Assemble the launch plan.
    BuildPlan,
    /// Provide the network.
    Provision,
    /// Stand up the egress tunnel.
    EstablishTunnel,
    /// Launch the container.
    StartSession,
    /// Carry messages until a side closes, or the user interrupts.
    RunPipeline,
    /// Stop the container, remove the workspace and delete the network.
    TearDown(Ending),
    /// Delete the network that no session took over.
    DeleteNetwork(Ending),
    /// The run is over.
    Finished(Ending),
}

/// What a step came to.
#[derive(Debug)]
pub enum RunEvent {
    Succeeded,
    Failed(NpxcError),
    /// The user interrupted: only the pipeline is waited for together with that.
    Interrupted,
}

/// A run: its current step, and what there is to clean up.
#[derive(Debug)]
pub struct Run {
    pub step: RunStep,
    /// Whether egress is allowlisted, which takes a network of its own and a tunnel.
    pub allowlisted: bool,
    /// Whether a network was created for the run and still exists.
    pub network: bool,
    /// Whether a session is under way.
    pub session: bool,
}

/// The start of a run. A dry run only shows the plan.
pub fn begin(dry_run: bool, allowlisted: bool) -> (r: Run)
    ensures
        r == (Run {
            step: if dry_run {
                RunStep::ShowPlan
            } else {
                RunStep::EnsureImage
            },
            allowlisted,
            network: false,
            session: false,
        }),
        wf(r),
{
    let step = if dry_run {
        RunStep::ShowPlan
    } else {
        RunStep::EnsureImage
    };
    Run { step, allowlisted, network: false, session: false }
}

/// The ending that an event leads to.
pub open spec fn ending_of(event: RunEvent) -> Ending {
    match event {
        RunEvent::Succeeded => Ending::Success,
        RunEvent::Failed(e) => Ending::Failed(e),
        RunEvent::Interrupted => Ending::Interrupted,
    }
}

/// The step after `step`.
pub open spec fn next_step(run: Run, event: RunEvent) -> RunStep {
    let over = RunStep::Finished(ending_of(event));
    let ok = event is Succeeded;
    match run.step {
        RunStep::ShowPlan => over,
        RunStep::EnsureImage => if ok {
            RunStep::PinVersion
        } else {
            over
        },
        RunStep::PinVersion => RunStep::BuildPlan,
        RunStep::BuildPlan => if ok {
            RunStep::Provision
        } else {
            over
        },
        RunStep::Provision => if !ok {
            over
        } else if run.allowlisted {
            RunStep::EstablishTunnel
        } else {
            RunStep::StartSession
        },
        RunStep::EstablishTunnel => if ok {
            RunStep::StartSession
        } else {
            RunStep::DeleteNetwork(ending_of(event))
        },
        RunStep::StartSession => if ok {
            RunStep::RunPipeline
        } else if run.network {
            RunStep::DeleteNetwork(ending_of(event))
        } else {
            over
        },
        RunStep::RunPipeline => RunStep::TearDown(ending_of(event)),
        RunStep::TearDown(ending) => RunStep::Finished(ending),
        RunStep::DeleteNetwork(ending) => RunStep::Finished(ending),
        RunStep::Finished(ending) => RunStep::Finished(ending),
    }
}

/// The run after its step came to `event`.
pub open spec fn advanced(run: Run, event: RunEvent) -> Run {
    let ok = event is Succeeded;
    Run {
        step: next_step(run, event),
        allowlisted: run.allowlisted,
        network: match run.step {
            RunStep::Provision => ok && run.allowlisted,
            RunStep::TearDown(_) => false,
            RunStep::DeleteNetwork(_) => false,
            _ => run.network,
        },
        session: match run.step {
            RunStep::StartSession => ok,
            RunStep::TearDown(_) => false,
            _ => run.session,
        },
    }
}

fn ending(event: RunEvent) -> (r: Ending)
    ensures
        r == ending_of(event),
{
    match event {
        RunEvent::Succeeded => Ending::Success,
        RunEvent::Failed(e) => Ending::Failed(e),
        RunEvent::Interrupted => Ending::Interrupted,
    }
}

/// Takes a run past its current step, which came to `event`.
pub fn advance(run: Run, event: RunEvent) -> (r: Run)
    requires
        event is Interrupted ==> run.step is RunPipeline,
    ensures
        r == advanced(run, event),
{
    let ok = match &event {
        RunEvent::Succeeded => true,
        _ => false,
    };
    let Run { step, allowlisted, network, session } = run;
    match step {
        RunStep::ShowPlan => Run {
            step: RunStep::Finished(ending(event)),
            allowlisted,
            network,
            session,
        },
        RunStep::EnsureImage => {
            let step = if ok {
                RunStep::PinVersion
            } else {
                RunStep::Finished(ending(event))
            };
            Run { step, allowlisted, network, session }
        },
        RunStep::PinVersion => Run { step: RunStep::BuildPlan, allowlisted, network, session },
        RunStep::BuildPlan => {
            let step = if ok {
                RunStep::Provision
            } else {
                RunStep::Finished(ending(event))
            };
            Run { step, allowlisted, network, session }
        },
        RunStep::Provision => {
            let step = if !ok {
                RunStep::Finished(ending(event))
            } else if allowlisted {
                RunStep::EstablishTunnel
            } else {
                RunStep::StartSession
            };
            Run { step, allowlisted, network: ok && allowlisted, session }
        },
        RunStep::EstablishTunnel => {
            let step = if ok {
                RunStep::StartSession
            } else {
                RunStep::DeleteNetwork(ending(event))
            };
            Run { step, allowlisted, network, session }
        },
        RunStep::StartSession => {
            let step = if ok {
                RunStep::RunPipeline
            } else if network {
                RunStep::DeleteNetwork(ending(event))
            } else {
                RunStep::Finished(ending(event))
            };
            Run { step, allowlisted, network, session: ok }
        },
        RunStep::RunPipeline => Run {
            step: RunStep::TearDown(ending(event)),
            allowlisted,
            network,
            session,
        },
        RunStep::TearDown(e) => Run {
            step: RunStep::Finished(e),
            allowlisted,
            network: false,
            session: false,
        },
        RunStep::DeleteNetwork(e) => Run {
            step: RunStep::Finished(e),
            allowlisted,
            network: false,
            session,
        },
        RunStep::Finished(e) => Run { step: RunStep::Finished(e), allowlisted, network, session },
    }
}

/// The exit code of a process whose run ended so.
pub open spec fn exit_status_of(ending: Ending) -> i32 {
    match ending {
        Ending::Success => 0,
        Ending::Failed(e) => error::exit_code_of(e),
        Ending::Interrupted => 130,
    }
}

/// The exit code of a process whose run ended so.
pub fn exit_status(ending: &Ending) -> (r: i32)
    ensures
        r == exit_status_of(*ending),
{
    match ending {
        Ending::Success => 0,
        Ending::Failed(e) => e.exit_code(),
        Ending::Interrupted => 130,
    }
}

// ---------------------------------------------------------------------------
// Laws
// ---------------------------------------------------------------------------

/// What holds of a run at each of its steps: a session is under way exactly while
/// it is run and torn down, a network exists only where egress is allowlisted, and
/// from then on until it is deleted.
pub open spec fn wf(run: Run) -> bool {
    &&& run.session <==> (run.step is RunPipeline || run.step is TearDown)
    &&& run.network ==> run.allowlisted
    &&& run.step is EstablishTunnel ==> run.network
    &&& run.step is DeleteNetwork ==> run.network
    &&& (run.step is StartSession || run.session) ==> run.network == run.allowlisted
    &&& (run.step is ShowPlan || run.step is EnsureImage || run.step is PinVersion
        || run.step is BuildPlan || run.step is Provision) ==> !run.network
}

/// A run begins with nothing to clean up, and every step keeps what holds of runs.
pub proof fn runs_stay_well_formed(run: Run, event: RunEvent)
    requires
        wf(run),
    ensures
        wf(advanced(run, event)),
{
}

/// A run never ends with its session under way, nor does it leave its network behind.
pub proof fn runs_clean_up(run: Run, event: RunEvent)
    requires
        wf(run),
        !(run.step is Finished),
        advanced(run, event).step is Finished,
    ensures
        !advanced(run, event).session,
        !advanced(run, event).network,
{
}

/// A session that was started is torn down before the run ends, however it went.
pub proof fn sessions_are_torn_down(run: Run, event: RunEvent)
    requires
        wf(run),
        run.step is RunPipeline,
    ensures
        advanced(run, event).step == RunStep::TearDown(ending_of(event)),
        forall|after: RunEvent| #[trigger]
            advanced(advanced(run, event), after).step == RunStep::Finished(ending_of(event)),
{
}

/// A dry run ends after showing the plan: nothing is built, created or started.
pub proof fn dry_runs_touch_nothing(run: Run, event: RunEvent)
    requires
        run.step is ShowPlan,
        wf(run),
    ensures
        advanced(run, event).step is Finished,
        !advanced(run, event).network,
        !advanced(run, event).session,
{
}

/// How many steps of a run can still follow.
pub open spec fn steps_left(step: RunStep) -> nat {
    match step {
        RunStep::EnsureImage => 8,
        RunStep::PinVersion => 7,
        RunStep::BuildPlan => 6,
        RunStep::Provision => 5,
        RunStep::EstablishTunnel => 4,
        RunStep::StartSession => 3,
        RunStep::RunPipeline => 2,
        RunStep::ShowPlan => 1,
        RunStep::TearDown(_) => 1,
        RunStep::DeleteNetwork(_) => 1,
        RunStep::Finished(_) => 0,
    }
}

/// A run comes to an end: every step brings it nearer.
pub proof fn runs_end(run: Run, event: RunEvent)
    requires
        !(run.step is Finished),
    ensures
        steps_left(advanced(run, event).step) < steps_left(run.step),
{
}

/// A run that is not a dry run takes its steps in order as long as they succeed: the
/// image, the version, the plan, the network, the tunnel where egress is allowlisted and
/// only there, the session, and the pipeline.
pub proof fn runs_take_their_steps_in_order(run: Run)
    ensures
        run.step is EnsureImage ==> advanced(run, RunEvent::Succeeded).step is PinVersion,
        run.step is PinVersion ==> advanced(run, RunEvent::Succeeded).step is BuildPlan,
        run.step is BuildPlan ==> advanced(run, RunEvent::Succeeded).step is Provision,
        run.step is Provision && run.allowlisted ==> advanced(
            run,
            RunEvent::Succeeded,
        ).step is EstablishTunnel,
        run.step is Provision && !run.allowlisted ==> advanced(
            run,
            RunEvent::Succeeded,
        ).step is StartSession,
        run.step is EstablishTunnel ==> advanced(run, RunEvent::Succeeded).step is StartSession,
        run.step is StartSession ==> advanced(run, RunEvent::Succeeded).step is RunPipeline,
        run.step is RunPipeline ==> advanced(run, RunEvent::Succeeded).step == RunStep::TearDown(
            Ending::Success,
        ),
        advanced(run, RunEvent::Succeeded).allowlisted == run.allowlisted,
{
}

/// A step that fails ends the run with its error, after what was created is cleaned up;
/// only a failure to pin the version does not end it.
pub proof fn failures_end_the_run(run: Run, e: NpxcError)
    requires
        wf(run),
        run.step is EnsureImage || run.step is BuildPlan || run.step is Provision
            || run.step is EstablishTunnel || run.step is StartSession || run.step is RunPipeline,
    ensures
        ({
            let next = advanced(run, RunEvent::Failed(e));
            ||| next.step == RunStep::Finished(Ending::Failed(e)) && !run.network && !run.session
            ||| next.step == RunStep::DeleteNetwork(Ending::Failed(e)) && run.network
                && !run.session
            ||| next.step == RunStep::TearDown(Ending::Failed(e)) && run.session
        }),
{
}

/// A version that cannot be pinned does not keep the package from running.
pub proof fn pinning_failures_are_passed_over(run: Run, event: RunEvent)
    requires
        run.step is PinVersion,
    ensures
        advanced(run, event).step is BuildPlan,
{
}

/// An ending is not changed by the cleaning up that follows it.
pub proof fn endings_are_kept(run: Run, event: RunEvent, ending: Ending)
    requires
        run.step == RunStep::TearDown(ending) || run.step == RunStep::DeleteNetwork(ending)
            || run.step == RunStep::Finished(ending),
    ensures
        advanced(run, event).step == RunStep::Finished(ending),
{
}

/// The exit code tells how a run ended: 0 after success, 130 after an interruption, and
/// after an error what kind it was.
pub proof fn exit_codes_tell_endings(e: NpxcError)
    ensures
        exit_status_of(Ending::Success) == 0,
        exit_status_of(Ending::Interrupted) == 130,
        e is RuntimeNotAvailable ==> exit_status_of(Ending::Failed(e)) == 2,
        e is BuildFailed ==> exit_status_of(Ending::Failed(e)) == 3,
        e is Runtime ==> exit_status_of(Ending::Failed(e)) == 4,
        !(e is RuntimeNotAvailable) && !(e is BuildFailed) && !(e is Runtime) ==> exit_status_of(
            Ending::Failed(e),
        ) == 1,
{
}

} // verus!
