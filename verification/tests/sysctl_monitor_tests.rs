use netdog::monitor::{MonitorAction, MonitorEvent, MonitorState, SingleFlight};
use netdog::sysctl::{sysctl_conf_text, sysctl_plan};

#[test]
fn default_sysctls() {
    let interface = "eno1";
    let expected = "-net.ipv6.conf.eno1.accept_ra = 2\n-net.ipv4.conf.eno1.rp_filter = 2\n";
    assert_eq!(sysctl_conf_text(interface), expected);
}

#[test]
fn sysctl_plan_is_marker_based() {
    // First invocation: nothing exists, so write the file and run the tool.
    let first = sysctl_plan(false, false);
    assert!(first.write_config);
    assert!(first.run_apply);

    // Second invocation: configuration and marker in place, do nothing.
    let second = sysctl_plan(true, true);
    assert!(!second.write_config);
    assert!(!second.run_apply);

    // A crash between writing and marking re-applies, harmlessly.
    let retry = sysctl_plan(true, false);
    assert!(!retry.write_config);
    assert!(retry.run_apply);
}

#[test]
fn monitor_happy_path() {
    let (s, a) = netdog::monitor::monitor_start();
    assert_eq!(s, MonitorState::Connecting);
    assert_eq!(a, MonitorAction::Connect);

    let (s, a) = netdog::monitor::monitor_step(s, MonitorEvent::ConnectSucceeded);
    assert_eq!(s, MonitorState::Subscribed);
    assert_eq!(a, MonitorAction::Subscribe);

    let (s, a) = netdog::monitor::monitor_step(s, MonitorEvent::SubscribeSucceeded);
    assert_eq!(s, MonitorState::Watching);
    assert_eq!(a, MonitorAction::AwaitNotification);

    let (s, a) = netdog::monitor::monitor_step(s, MonitorEvent::NotificationReceived);
    assert_eq!(s, MonitorState::Watching);
    assert_eq!(a, MonitorAction::Resynthesize);

    let (s, a) = netdog::monitor::monitor_step(s, MonitorEvent::TransientBusError);
    assert_eq!(s, MonitorState::Watching);
    assert_eq!(a, MonitorAction::AwaitNotification);

    // A lost subscription falls back so the watch target is re-resolved.
    let (s, a) = netdog::monitor::monitor_step(s, MonitorEvent::SubscriptionLost);
    assert_eq!(s, MonitorState::Subscribed);
    assert_eq!(a, MonitorAction::Subscribe);

    let (s, a) = netdog::monitor::monitor_step(s, MonitorEvent::SubscribeSucceeded);
    assert_eq!(s, MonitorState::Watching);
    assert_eq!(a, MonitorAction::AwaitNotification);

    let (s, a) = netdog::monitor::monitor_step(s, MonitorEvent::FatalBusError);
    assert_eq!(s, MonitorState::Stopped);
    assert_eq!(a, MonitorAction::CloseAndStop);
}

#[test]
fn monitor_cancellation_stops_every_state() {
    for state in [
        MonitorState::Connecting,
        MonitorState::Subscribed,
        MonitorState::Watching,
        MonitorState::Stopped,
    ] {
        let (s, _) = netdog::monitor::monitor_step(state, MonitorEvent::CancelRequested);
        assert_eq!(s, MonitorState::Stopped);
    }
}

#[test]
fn monitor_failures_stop() {
    let (s, a) =
        netdog::monitor::monitor_step(MonitorState::Connecting, MonitorEvent::ConnectFailed);
    assert_eq!(s, MonitorState::Stopped);
    assert_eq!(a, MonitorAction::CloseAndStop);

    let (s, a) =
        netdog::monitor::monitor_step(MonitorState::Subscribed, MonitorEvent::SubscribeFailed);
    assert_eq!(s, MonitorState::Stopped);
    assert_eq!(a, MonitorAction::CloseAndStop);
}

#[test]
fn single_flight_serializes() {
    let mut gate = SingleFlight::new();
    assert!(gate.try_begin());
    // A second run for the same interface is refused while one is going.
    assert!(!gate.try_begin());
    gate.finish();
    assert!(gate.try_begin());
}
