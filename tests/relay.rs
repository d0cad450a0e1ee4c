use node_migrations::invitation::AcceptInvitation;
use node_migrations::relay::{RelayAction, RelayEvent, RelayLifecycle, RelayStage, WorkerRelay};

fn run(events: &[RelayEvent]) -> Vec<RelayAction> {
    let (mut l, first) = RelayLifecycle::start();
    let mut actions = vec![first];
    for e in events {
        actions.push(l.next(*e));
    }
    assert_eq!(l.stage, RelayStage::Done);
    actions
}

#[test]
fn relay_runs_until_messages_run_out() {
    let actions = run(&[
        RelayEvent::Initialized(true),
        RelayEvent::Handled,
        RelayEvent::Exhausted,
        RelayEvent::ShutDown,
        RelayEvent::RouterFound(true),
        RelayEvent::AckSent,
    ]);
    assert_eq!(actions, vec![RelayAction::Initialize, RelayAction::Receive, RelayAction::Receive, RelayAction::Shutdown, RelayAction::FindRouter, RelayAction::SendStopAck, RelayAction::Exit]);
}

#[test]
fn relay_with_failed_initialisation_stops_its_address() {
    let actions = run(&[
        RelayEvent::Initialized(false),
        RelayEvent::ShutDown,
        RelayEvent::RouterFound(true),
        RelayEvent::AddressStopped,
        RelayEvent::AckSent,
    ]);
    assert_eq!(actions, vec![RelayAction::Initialize, RelayAction::Shutdown, RelayAction::FindRouter, RelayAction::StopAddress, RelayAction::SendStopAck, RelayAction::Exit]);
}

#[test]
fn relay_without_router_exits_after_shutdown() {
    let actions = run(&[RelayEvent::Initialized(true), RelayEvent::StopSignal, RelayEvent::ShutDown, RelayEvent::RouterFound(false)]);
    assert_eq!(actions, vec![RelayAction::Initialize, RelayAction::Receive, RelayAction::Shutdown, RelayAction::FindRouter, RelayAction::Exit]);
}

#[test]
fn relay_ignores_an_event_that_does_not_answer() {
    let (mut l, _) = RelayLifecycle::start();
    assert_eq!(l.next(RelayEvent::AckSent), RelayAction::Initialize);
    assert_eq!(l.stage, RelayStage::Initializing);
}

#[test]
fn worker_relay_keeps_worker_and_context() {
    let relay = WorkerRelay::new("worker", 7u32);
    assert_eq!(relay.into_parts(), ("worker", 7u32));
    let invitation = AcceptInvitation { id: "inv-1".to_string() };
    assert_eq!(invitation.id, "inv-1");
}
