//! The live monitor's control logic: a state machine over bus events, and
//! the single-flight gate that serializes synthesis runs.
//!
//! The monitor itself — connecting to the system bus, subscribing to the
//! primary link's property-change notifications, waiting — is outside
//! work; every decision it takes is this function of state and event, so
//! the loop around it holds no logic of its own.

use vstd::prelude::*;

verus! {

/// Where the monitor stands.
#[derive(Debug, Clone, Copy, PartialEq, Eq, Structural)]
pub enum MonitorState {
    /// Connecting to the system bus and resolving the primary link.
    Connecting,
    /// Connected; establishing the property-change subscription.
    Subscribed,
    /// Watching for notifications; re-synthesizes on each one.
    Watching,
    /// Terminal: cancelled or failed beyond recovery.
    Stopped,
}

/// What the outside loop observed.
#[derive(Debug, Clone, Copy, PartialEq, Eq, Structural)]
pub enum MonitorEvent {
    ConnectSucceeded,
    ConnectFailed,
    SubscribeSucceeded,
    SubscribeFailed,
    NotificationReceived,
    TransientBusError,
    /// The notification stream ended: the watched link went away.
    SubscriptionLost,
    FatalBusError,
    CancelRequested,
}

/// What the outside loop must do next.
#[derive(Debug, Clone, Copy, PartialEq, Eq, Structural)]
pub enum MonitorAction {
    /// Connect to the bus and resolve the watch target.
    Connect,
    /// Establish the subscription.
    Subscribe,
    /// Wait for the next notification.
    AwaitNotification,
    /// Run the synthesis pipeline once, then wait again.
    Resynthesize,
    /// Close the subscription and return.
    CloseAndStop,
    /// The event does not apply to the state; keep waiting.
    Ignore,
}

/// The transition table.
///
/// Connecting advances to Subscribed on success and stops on failure;
/// Subscribed advances to Watching on success and stops on failure.
/// Watching self-loops: a notification triggers one re-synthesis, a
/// transient bus error is tolerated and waited out, a lost subscription
/// falls back to Subscribed so the watch target is re-resolved when the
/// link disappears and reappears, while a fatal bus error or a
/// cancellation closes the subscription and stops.  A cancellation stops
/// the monitor from every state, and Stopped is terminal.
pub open spec fn spec_monitor_step(state: MonitorState, event: MonitorEvent) -> (
    MonitorState,
    MonitorAction,
) {
    match (state, event) {
        (MonitorState::Connecting, MonitorEvent::ConnectSucceeded) => (
            MonitorState::Subscribed,
            MonitorAction::Subscribe,
        ),
        (MonitorState::Connecting, MonitorEvent::ConnectFailed) => (
            MonitorState::Stopped,
            MonitorAction::CloseAndStop,
        ),
        (MonitorState::Subscribed, MonitorEvent::SubscribeSucceeded) => (
            MonitorState::Watching,
            MonitorAction::AwaitNotification,
        ),
        (MonitorState::Subscribed, MonitorEvent::SubscribeFailed) => (
            MonitorState::Stopped,
            MonitorAction::CloseAndStop,
        ),
        (MonitorState::Watching, MonitorEvent::NotificationReceived) => (
            MonitorState::Watching,
            MonitorAction::Resynthesize,
        ),
        (MonitorState::Watching, MonitorEvent::TransientBusError) => (
            MonitorState::Watching,
            MonitorAction::AwaitNotification,
        ),
        (MonitorState::Watching, MonitorEvent::SubscriptionLost) => (
            MonitorState::Subscribed,
            MonitorAction::Subscribe,
        ),
        (MonitorState::Watching, MonitorEvent::FatalBusError) => (
            MonitorState::Stopped,
            MonitorAction::CloseAndStop,
        ),
        (_, MonitorEvent::CancelRequested) => (MonitorState::Stopped, MonitorAction::CloseAndStop),
        (MonitorState::Stopped, _) => (MonitorState::Stopped, MonitorAction::Ignore),
        (s, _) => (s, MonitorAction::Ignore),
    }
}

/// Where a monitor begins, and what its loop must do first: connect.
pub fn monitor_start() -> (r: (MonitorState, MonitorAction))
    ensures
        r.0 is Connecting,
        r.1 is Connect,
{
    (MonitorState::Connecting, MonitorAction::Connect)
}

/// Takes one monitor step.  Cancellation stops the monitor from every
/// state; Stopped is terminal; Watching re-synthesizes exactly on a
/// received notification and survives transient bus errors.
pub fn monitor_step(state: MonitorState, event: MonitorEvent) -> (r: (MonitorState, MonitorAction))
    ensures
        r == spec_monitor_step(state, event),
        event is CancelRequested ==> r.0 is Stopped && r.1 is CloseAndStop,
        state is Stopped ==> r.0 is Stopped,
        state is Watching && event is NotificationReceived ==> r.0 is Watching && r.1
            is Resynthesize,
        state is Watching && event is TransientBusError ==> r.0 is Watching,
        state is Watching && event is SubscriptionLost ==> r.0 is Subscribed && r.1 is Subscribe,
        r.1 is Resynthesize ==> state is Watching && event is NotificationReceived,
{
    match (state, event) {
        (MonitorState::Connecting, MonitorEvent::ConnectSucceeded) => (
            MonitorState::Subscribed,
            MonitorAction::Subscribe,
        ),
        (MonitorState::Connecting, MonitorEvent::ConnectFailed) => (
            MonitorState::Stopped,
            MonitorAction::CloseAndStop,
        ),
        (MonitorState::Subscribed, MonitorEvent::SubscribeSucceeded) => (
            MonitorState::Watching,
            MonitorAction::AwaitNotification,
        ),
        (MonitorState::Subscribed, MonitorEvent::SubscribeFailed) => (
            MonitorState::Stopped,
            MonitorAction::CloseAndStop,
        ),
        (MonitorState::Watching, MonitorEvent::NotificationReceived) => (
            MonitorState::Watching,
            MonitorAction::Resynthesize,
        ),
        (MonitorState::Watching, MonitorEvent::TransientBusError) => (
            MonitorState::Watching,
            MonitorAction::AwaitNotification,
        ),
        (MonitorState::Watching, MonitorEvent::SubscriptionLost) => (
            MonitorState::Subscribed,
            MonitorAction::Subscribe,
        ),
        (MonitorState::Watching, MonitorEvent::FatalBusError) => (
            MonitorState::Stopped,
            MonitorAction::CloseAndStop,
        ),
        (_, MonitorEvent::CancelRequested) => (MonitorState::Stopped, MonitorAction::CloseAndStop),
        (MonitorState::Stopped, _) => (MonitorState::Stopped, MonitorAction::Ignore),
        (s, _) => (s, MonitorAction::Ignore),
    }
}

/// The single-flight gate: at most one synthesis run for one interface at
/// a time.  The loop begins a run only when `try_begin` granted it, and
/// ends it with `finish`; a second `try_begin` before `finish` is refused.
#[derive(Debug)]
pub struct SingleFlight {
    busy: bool,
}

impl SingleFlight {
    /// Whether a synthesis run is in flight.
    pub closed spec fn is_busy(&self) -> bool {
        self.busy
    }

    /// A fresh gate; nothing holds it.
    pub fn new() -> (r: SingleFlight)
        ensures
            !r.is_busy(),
    {
        SingleFlight { busy: false }
    }

    /// Asks to begin a run: granted exactly when no run is in flight,
    /// and a run counts as in flight afterwards either way.
    pub fn try_begin(&mut self) -> (granted: bool)
        ensures
            granted == !old(self).is_busy(),
            final(self).is_busy(),
    {
        let granted = !self.busy;
        self.busy = true;
        granted
    }

    /// Ends the running synthesis; no run is in flight afterwards.
    pub fn finish(&mut self)
        ensures
            !final(self).is_busy(),
    {
        self.busy = false;
    }
}

} // verus!
