//! What the storage daemon, run as a Windows service, answers the service
//! control manager, and the statuses it reports while it starts and stops.
use vstd::prelude::*;

verus! {

/// The name under which the service is registered.
pub const SERVICE_NAME: &'static str = "LeafServer";

/// A request of the service control manager.
#[derive(PartialEq, Eq, Structural, Clone, Copy, Debug)]
pub enum ServiceControl {
    /// Stop the service.
    Stop,
    /// Report the current status.
    Interrogate,
    /// Any other request.
    Other,
}

/// The answer of the control handler.
#[derive(PartialEq, Eq, Structural, Clone, Copy, Debug)]
pub enum ControlHandlerResult {
    NoError,
    NotImplemented,
}

/// The phase of the service.
#[derive(PartialEq, Eq, Structural, Clone, Copy, Debug)]
pub enum ServiceState {
    Running,
    StopPending,
    Stopped,
}

/// A status report: the phase, whether a stop request is accepted, the exit
/// code, the checkpoint and how long the next step may take.
pub struct ServiceStatus {
    pub current_state: ServiceState,
    pub accepts_stop: bool,
    pub exit_code: u32,
    pub checkpoint: u32,
    pub wait_hint_secs: u64,
}

/// The answer to a control request, and whether the service is to shut
/// down: a stop request is answered and shuts the service down, a status
/// request is answered, any other is not implemented.
pub fn handle_control(control: ServiceControl) -> (r: (ControlHandlerResult, bool))
    ensures
        r == match control {
            ServiceControl::Stop => (ControlHandlerResult::NoError, true),
            ServiceControl::Interrogate => (ControlHandlerResult::NoError, false),
            ServiceControl::Other => (ControlHandlerResult::NotImplemented, false),
        },
{
    match control {
        ServiceControl::Stop => (ControlHandlerResult::NoError, true),
        ServiceControl::Interrogate => (ControlHandlerResult::NoError, false),
        ServiceControl::Other => (ControlHandlerResult::NotImplemented, false),
    }
}

/// The status reported in a phase: only a running service accepts a stop
/// request; stopping may take ten seconds; the exit code and the checkpoint
/// are zero.
pub fn status_of(state: ServiceState) -> (s: ServiceStatus)
    ensures
        s.current_state == state,
        s.accepts_stop == (state == ServiceState::Running),
        s.wait_hint_secs == (if state == ServiceState::StopPending {
            10u64
        } else {
            0u64
        }),
        s.exit_code == 0,
        s.checkpoint == 0,
{
    let (accepts_stop, wait_hint_secs) = match state {
        ServiceState::Running => (true, 0u64),
        ServiceState::StopPending => (false, 10u64),
        ServiceState::Stopped => (false, 0u64),
    };
    ServiceStatus { current_state: state, accepts_stop, exit_code: 0, checkpoint: 0, wait_hint_secs }
}

// ---------------------------------------------------------------------------
// The course of the service
// ---------------------------------------------------------------------------
/// Where the service is in its course.
#[derive(PartialEq, Eq, Structural, Clone, Copy, Debug)]
pub enum ServicePhase {
    /// The control handler is being registered.
    Registering,
    /// The running status is being reported.
    ReportingRunning,
    /// The asynchronous runtime and the server in it are being started.
    StartingRuntime,
    /// The server runs until a stop request arrives.
    Serving,
    /// The stop-pending status is being reported.
    ReportingStopPending,
    /// The runtime, and the server with it, is being shut down.
    ShuttingDown,
    /// The stopped status is being reported.
    ReportingStopped,
    /// The service function has returned.
    Finished,
}

/// What the service function learns: how its last action went, or that a
/// stop request arrived.
#[derive(PartialEq, Eq, Structural, Clone, Copy, Debug)]
pub enum ServiceEvent {
    /// The control handler was registered, or registration failed.
    Registered(bool),
    /// A status was reported, or reporting it failed.
    Reported(bool),
    /// The runtime started, or it could not be created.
    RuntimeStarted(bool),
    /// The control handler passed a stop request on.
    StopRequested,
    /// The runtime has been shut down.
    RuntimeDropped,
}

/// What the service function is to do next.
#[derive(PartialEq, Eq, Structural, Clone, Copy, Debug)]
pub enum ServiceAction {
    /// Register the control handler under [`SERVICE_NAME`].
    Register,
    /// Report this status, as [`status_of`] gives it.
    Report(ServiceState),
    /// Create the runtime and start the server in it.
    StartRuntime,
    /// Wait for a stop request.
    WaitForStop,
    /// Shut the runtime down.
    ShutDownRuntime,
    /// Go on with what the phase is doing: the event did not belong to it.
    Continue,
    /// Return from the service function.
    Exit,
}

/// The course of the service function, one event at a time: the handler is
/// registered, the running status is reported, the runtime is started, and
/// the service waits; a stop request has the stop-pending status reported,
/// the runtime shut down and the stopped status reported. Where registering,
/// reporting the running status or starting the runtime fails, the function
/// returns; a failure to report the later statuses is passed over. An event
/// that does not belong to the phase changes nothing.
pub open spec fn service_next(phase: ServicePhase, event: ServiceEvent) -> (ServicePhase, ServiceAction) {
    match (phase, event) {
        (ServicePhase::Registering, ServiceEvent::Registered(true)) => (
            ServicePhase::ReportingRunning,
            ServiceAction::Report(ServiceState::Running),
        ),
        (ServicePhase::Registering, ServiceEvent::Registered(false)) => (
            ServicePhase::Finished,
            ServiceAction::Exit,
        ),
        (ServicePhase::ReportingRunning, ServiceEvent::Reported(true)) => (
            ServicePhase::StartingRuntime,
            ServiceAction::StartRuntime,
        ),
        (ServicePhase::ReportingRunning, ServiceEvent::Reported(false)) => (
            ServicePhase::Finished,
            ServiceAction::Exit,
        ),
        (ServicePhase::StartingRuntime, ServiceEvent::RuntimeStarted(true)) => (
            ServicePhase::Serving,
            ServiceAction::WaitForStop,
        ),
        (ServicePhase::StartingRuntime, ServiceEvent::RuntimeStarted(false)) => (
            ServicePhase::Finished,
            ServiceAction::Exit,
        ),
        (ServicePhase::Serving, ServiceEvent::StopRequested) => (
            ServicePhase::ReportingStopPending,
            ServiceAction::Report(ServiceState::StopPending),
        ),
        (ServicePhase::ReportingStopPending, ServiceEvent::Reported(_)) => (
            ServicePhase::ShuttingDown,
            ServiceAction::ShutDownRuntime,
        ),
        (ServicePhase::ShuttingDown, ServiceEvent::RuntimeDropped) => (
            ServicePhase::ReportingStopped,
            ServiceAction::Report(ServiceState::Stopped),
        ),
        (ServicePhase::ReportingStopped, ServiceEvent::Reported(_)) => (
            ServicePhase::Finished,
            ServiceAction::Exit,
        ),
        (p, _) => (p, ServiceAction::Continue),
    }
}

/// Where the service function starts: it registers the control handler.
pub fn service_start() -> (r: (ServicePhase, ServiceAction))
    ensures
        r == (ServicePhase::Registering, ServiceAction::Register),
{
    (ServicePhase::Registering, ServiceAction::Register)
}

/// The next phase and action of the service function for an event.
pub fn service_step(phase: ServicePhase, event: ServiceEvent) -> (r: (ServicePhase, ServiceAction))
    ensures
        r == service_next(phase, event),
{
    match (phase, event) {
        (ServicePhase::Registering, ServiceEvent::Registered(true)) => (
            ServicePhase::ReportingRunning,
            ServiceAction::Report(ServiceState::Running),
        ),
        (ServicePhase::Registering, ServiceEvent::Registered(false)) => (
            ServicePhase::Finished,
            ServiceAction::Exit,
        ),
        (ServicePhase::ReportingRunning, ServiceEvent::Reported(true)) => (
            ServicePhase::StartingRuntime,
            ServiceAction::StartRuntime,
        ),
        (ServicePhase::ReportingRunning, ServiceEvent::Reported(false)) => (
            ServicePhase::Finished,
            ServiceAction::Exit,
        ),
        (ServicePhase::StartingRuntime, ServiceEvent::RuntimeStarted(true)) => (
            ServicePhase::Serving,
            ServiceAction::WaitForStop,
        ),
        (ServicePhase::StartingRuntime, ServiceEvent::RuntimeStarted(false)) => (
            ServicePhase::Finished,
            ServiceAction::Exit,
        ),
        (ServicePhase::Serving, ServiceEvent::StopRequested) => (
            ServicePhase::ReportingStopPending,
            ServiceAction::Report(ServiceState::StopPending),
        ),
        (ServicePhase::ReportingStopPending, ServiceEvent::Reported(_)) => (
            ServicePhase::ShuttingDown,
            ServiceAction::ShutDownRuntime,
        ),
        (ServicePhase::ShuttingDown, ServiceEvent::RuntimeDropped) => (
            ServicePhase::ReportingStopped,
            ServiceAction::Report(ServiceState::Stopped),
        ),
        (ServicePhase::ReportingStopped, ServiceEvent::Reported(_)) => (
            ServicePhase::Finished,
            ServiceAction::Exit,
        ),
        (p, _) => (p, ServiceAction::Continue),
    }
}

/// The actions taken for a sequence of events from a phase on.
pub open spec fn service_actions(phase: ServicePhase, events: Seq<ServiceEvent>) -> Seq<ServiceAction>
    decreases events.len(),
{
    if events.len() == 0 {
        Seq::empty()
    } else {
        seq![service_next(phase, events[0]).1] + service_actions(
            service_next(phase, events[0]).0,
            events.drop_first(),
        )
    }
}

/// The statuses reported by a sequence of actions, in order.
pub open spec fn reported_states(actions: Seq<ServiceAction>) -> Seq<ServiceState>
    decreases actions.len(),
{
    if actions.len() == 0 {
        Seq::empty()
    } else {
        reported_by(actions[0]) + reported_states(actions.drop_first())
    }
}

/// The status an action reports, if any.
pub open spec fn reported_by(a: ServiceAction) -> Seq<ServiceState> {
    match a {
        ServiceAction::Report(s) => seq![s],
        _ => Seq::empty(),
    }
}

/// Whether `s` is `t` or begins it.
pub open spec fn begins(s: Seq<ServiceState>, t: Seq<ServiceState>) -> bool {
    s.len() <= t.len() && s == t.subrange(0, s.len() as int)
}

/// The statuses that are yet to be reported once a phase is reached.
spec fn statuses_after(phase: ServicePhase) -> Seq<ServiceState> {
    match phase {
        ServicePhase::Registering => seq![
            ServiceState::Running,
            ServiceState::StopPending,
            ServiceState::Stopped,
        ],
        ServicePhase::ReportingRunning => seq![ServiceState::StopPending, ServiceState::Stopped],
        ServicePhase::StartingRuntime => seq![ServiceState::StopPending, ServiceState::Stopped],
        ServicePhase::Serving => seq![ServiceState::StopPending, ServiceState::Stopped],
        ServicePhase::ReportingStopPending => seq![ServiceState::Stopped],
        ServicePhase::ShuttingDown => seq![ServiceState::Stopped],
        ServicePhase::ReportingStopped => Seq::empty(),
        ServicePhase::Finished => Seq::empty(),
    }
}

/// The statuses that may yet be reported once a phase is reached, where no
/// stop request arrives.
spec fn statuses_without_stop(phase: ServicePhase) -> Seq<ServiceState> {
    match phase {
        ServicePhase::Registering => seq![ServiceState::Running],
        _ => Seq::empty(),
    }
}

proof fn lemma_actions_cons(phase: ServicePhase, events: Seq<ServiceEvent>)
    requires
        events.len() > 0,
    ensures
        reported_states(service_actions(phase, events)) == reported_by(
            service_next(phase, events[0]).1,
        ) + reported_states(service_actions(service_next(phase, events[0]).0, events.drop_first())),
{
    let a = service_next(phase, events[0]).1;
    let rest = service_actions(service_next(phase, events[0]).0, events.drop_first());
    assert((seq![a] + rest).drop_first() =~= rest);
    assert((seq![a] + rest)[0] == a);
}

proof fn lemma_begins_after(h: Seq<ServiceState>, x: Seq<ServiceState>, y: Seq<ServiceState>, z: Seq<ServiceState>)
    requires
        begins(x, y),
        begins(h + y, z),
    ensures
        begins(h + x, z),
{
    assert((h + y).subrange(0, (h + x).len() as int) =~= h + x);
    assert(z.subrange(0, (h + x).len() as int) =~= (h + y).subrange(0, (h + x).len() as int));
}

proof fn lemma_reports_follow(phase: ServicePhase, events: Seq<ServiceEvent>)
    ensures
        begins(reported_states(service_actions(phase, events)), statuses_after(phase)),
    decreases events.len(),
{
    if events.len() == 0 {
        assert(reported_states(service_actions(phase, events)) =~= Seq::<ServiceState>::empty());
        assert(statuses_after(phase).subrange(0, 0) =~= Seq::<ServiceState>::empty());
    } else {
        let (next, a) = service_next(phase, events[0]);
        lemma_reports_follow(next, events.drop_first());
        lemma_actions_cons(phase, events);
        let h = reported_by(a);
        let y = statuses_after(next);
        let z = statuses_after(phase);
        assert(begins(h + y, z)) by {
            assert(z.subrange(0, (h + y).len() as int) =~= h + y);
        }
        lemma_begins_after(h, reported_states(service_actions(next, events.drop_first())), y, z);
    }
}

proof fn lemma_reports_without_stop(phase: ServicePhase, events: Seq<ServiceEvent>)
    requires
        phase == ServicePhase::Registering || phase == ServicePhase::ReportingRunning || phase
            == ServicePhase::StartingRuntime || phase == ServicePhase::Serving || phase
            == ServicePhase::Finished,
        !events.contains(ServiceEvent::StopRequested),
    ensures
        begins(reported_states(service_actions(phase, events)), statuses_without_stop(phase)),
    decreases events.len(),
{
    if events.len() == 0 {
        assert(reported_states(service_actions(phase, events)) =~= Seq::<ServiceState>::empty());
        assert(statuses_without_stop(phase).subrange(0, 0) =~= Seq::<ServiceState>::empty());
    } else {
        let (next, a) = service_next(phase, events[0]);
        assert(events[0] != ServiceEvent::StopRequested) by {
            assert(events.contains(events[0]));
        }
        assert forall|e: ServiceEvent| events.drop_first().contains(e) implies events.contains(e) by {
            let k = choose|k: int| 0 <= k < events.drop_first().len() && events.drop_first()[k] == e;
            assert(events[k + 1] == e);
        }
        lemma_reports_without_stop(next, events.drop_first());
        lemma_actions_cons(phase, events);
        let h = reported_by(a);
        let y = statuses_without_stop(next);
        let z = statuses_without_stop(phase);
        assert(begins(h + y, z)) by {
            assert(z.subrange(0, (h + y).len() as int) =~= h + y);
        }
        lemma_begins_after(h, reported_states(service_actions(next, events.drop_first())), y, z);
    }
}

/// The service reports its statuses in their order and each at most once:
/// running, then stop-pending, then stopped, whatever happens; the reports
/// may end early where the service function returns.
pub proof fn lemma_statuses_in_order(events: Seq<ServiceEvent>)
    ensures
        begins(
            reported_states(service_actions(ServicePhase::Registering, events)),
            seq![ServiceState::Running, ServiceState::StopPending, ServiceState::Stopped],
        ),
{
    lemma_reports_follow(ServicePhase::Registering, events);
}

/// Without a stop request, the service reports no more than that it runs.
pub proof fn lemma_no_stop_status_without_request(events: Seq<ServiceEvent>)
    requires
        !events.contains(ServiceEvent::StopRequested),
    ensures
        begins(
            reported_states(service_actions(ServicePhase::Registering, events)),
            seq![ServiceState::Running],
        ),
{
    lemma_reports_without_stop(ServicePhase::Registering, events);
}

/// Once registration of the control handler fails, the service function
/// returns and reports no status, whatever follows.
pub proof fn lemma_no_status_without_registration(rest: Seq<ServiceEvent>)
    ensures
        reported_states(
            service_actions(ServicePhase::Registering, seq![ServiceEvent::Registered(false)] + rest),
        ) == Seq::<ServiceState>::empty(),
{
    let events = seq![ServiceEvent::Registered(false)] + rest;
    assert(events[0] == ServiceEvent::Registered(false));
    assert(events.drop_first() =~= rest);
    lemma_reports_follow(ServicePhase::Finished, rest);
    lemma_actions_cons(ServicePhase::Registering, events);
    assert(reported_states(service_actions(ServicePhase::Finished, rest)) =~= Seq::<ServiceState>::empty());
    assert(reported_by(ServiceAction::Exit) + Seq::<ServiceState>::empty() =~= Seq::<ServiceState>::empty());
}

} // verus!
