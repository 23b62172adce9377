//! End-to-end walks through the model: the coordinator drives the handler
//! table and the bridge exactly as the surrounding glue does, with the
//! operating-system edges (trampoline installation, semaphores, the worker
//! thread, the recovery boundary around user callbacks) elided.

use grace::backend::{signal_for_kind, SIGINT};
use grace::bridge::Bridge;
use grace::coordinator::{Coordinator, DispatchDecision};
use grace::stack::{DispatchOutcome, HandlerTable};
use grace::ShutdownType;

#[test]
fn scenario_interrupt_invoked_exactly_once() {
    // Register one callback for {Interrupt}.
    let mut coordinator = Coordinator::new();
    let reg = coordinator.register(&vec![ShutdownType::Interrupt]);
    assert!(reg.started_worker);
    assert_eq!(reg.newly_active, vec![ShutdownType::Interrupt]);

    // The glue reacts to the activation: it registers the bridge recorder
    // for the kind's signal number.
    let mut table = HandlerTable::new();
    let mut signums: Vec<i32> = Vec::new();
    for kind in reg.newly_active.iter() {
        signums.push(signal_for_kind(*kind));
    }
    let added = table.add_handler(&signums);
    assert_eq!(added.needs_install, vec![SIGINT]);

    // An interrupt arrives: the trampoline walks the dispatch order and the
    // recorder consumes the notification.
    let mut bridge = Bridge::new();
    let order = table.dispatch_order(SIGINT);
    assert_eq!(order.len(), 1);
    let mut reports: Vec<bool> = Vec::new();
    for _ in order.iter() {
        reports.push(bridge.record_signal(SIGINT));
    }
    assert!(matches!(
        table.resolve_dispatch(SIGINT, &reports),
        DispatchOutcome::Consumed { .. }
    ));

    // The worker wakes, drains, and dispatches: the registered callback is
    // invoked exactly once, with Interrupt.
    let plan = bridge.drain();
    assert_eq!(plan, vec![ShutdownType::Interrupt]);
    let mut invoked: Vec<ShutdownType> = Vec::new();
    for kind in plan.iter() {
        match coordinator.dispatch_decision(*kind) {
            DispatchDecision::Invoke { id } => {
                assert_eq!(id, reg.guard.callback_id());
                invoked.push(*kind);
            },
            DispatchDecision::ExitProcess { .. } => {
                panic!("a registered callback must be found");
            },
        }
    }
    assert_eq!(invoked, vec![ShutdownType::Interrupt]);
}

#[test]
fn scenario_newest_guard_wins_then_the_older_takes_over() {
    let mut coordinator = Coordinator::new();
    let reg1 = coordinator.register(&vec![ShutdownType::Interrupt]);
    let reg2 = coordinator.register(&vec![ShutdownType::Interrupt]);
    assert!(reg1.started_worker);
    assert!(!reg2.started_worker);
    assert_eq!(reg2.newly_active, Vec::<ShutdownType>::new());

    // First interrupt: only the newest registration fires.
    match coordinator.dispatch_decision(ShutdownType::Interrupt) {
        DispatchDecision::Invoke { id } => assert_eq!(id, reg2.guard.callback_id()),
        DispatchDecision::ExitProcess { .. } => panic!("a callback is registered"),
    }

    // Drop the newest guard; the older one takes over.
    let older_id = reg1.guard.callback_id();
    let rel = coordinator.unregister(reg2.guard);
    assert!(!rel.stopped_worker);
    assert_eq!(rel.deactivated, Vec::<ShutdownType>::new());
    match coordinator.dispatch_decision(ShutdownType::Interrupt) {
        DispatchDecision::Invoke { id } => assert_eq!(id, older_id),
        DispatchDecision::ExitProcess { .. } => panic!("a callback is registered"),
    }
}

#[test]
fn scenario_notification_after_release_exits_with_code_three() {
    let mut coordinator = Coordinator::new();
    let reg = coordinator.register(&vec![ShutdownType::Terminate]);
    let rel = coordinator.unregister(reg.guard);
    assert_eq!(rel.deactivated, vec![ShutdownType::Terminate]);
    assert!(rel.stopped_worker);
    assert!(coordinator.is_idle());

    // A notification already in flight still reaches dispatch: with no
    // registrant left the decision is to terminate with the fixed code.
    match coordinator.dispatch_decision(ShutdownType::Terminate) {
        DispatchDecision::ExitProcess { code } => assert_eq!(code, 3),
        DispatchDecision::Invoke { .. } => panic!("no callback should remain"),
    }
}

#[test]
fn scenario_dispatch_survives_a_failing_callback() {
    // The glue invokes the chosen callback under a recovery boundary that
    // absorbs a panic; dispatch itself never changes the coordinator, so a
    // later notification of the same kind is dispatched identically.
    let mut coordinator = Coordinator::new();
    let reg = coordinator.register(&vec![ShutdownType::Interrupt]);
    let first = coordinator.dispatch_decision(ShutdownType::Interrupt);
    // ... the callback runs here and fails; the failure is discarded ...
    let second = coordinator.dispatch_decision(ShutdownType::Interrupt);
    assert_eq!(first, second);
    match first {
        DispatchDecision::Invoke { id } => assert_eq!(id, reg.guard.callback_id()),
        DispatchDecision::ExitProcess { .. } => panic!("a callback is registered"),
    }
}

#[test]
fn scenario_burst_replays_in_stable_order() {
    let mut coordinator = Coordinator::new();
    let reg = coordinator.register(&vec![
        ShutdownType::Interrupt,
        ShutdownType::Terminate,
    ]);
    assert_eq!(
        reg.newly_active,
        vec![ShutdownType::Interrupt, ShutdownType::Terminate]
    );

    // Three interrupts and two terminations arrive before the worker
    // wakes, interleaved.
    let mut bridge = Bridge::new();
    bridge.record(ShutdownType::Interrupt);
    bridge.record(ShutdownType::Terminate);
    bridge.record(ShutdownType::Interrupt);
    bridge.record(ShutdownType::Terminate);
    bridge.record(ShutdownType::Interrupt);

    // One wake replays all five, interrupts first, and each one finds the
    // registered callback.
    let plan = bridge.drain();
    assert_eq!(
        plan,
        vec![
            ShutdownType::Interrupt,
            ShutdownType::Interrupt,
            ShutdownType::Interrupt,
            ShutdownType::Terminate,
            ShutdownType::Terminate,
        ]
    );
    for kind in plan.iter() {
        match coordinator.dispatch_decision(*kind) {
            DispatchDecision::Invoke { id } => assert_eq!(id, reg.guard.callback_id()),
            DispatchDecision::ExitProcess { .. } => panic!("a callback is registered"),
        }
    }
    assert_eq!(bridge.drain(), Vec::<ShutdownType>::new());
}

#[test]
fn registration_and_deactivation_effects() {
    let mut coordinator = Coordinator::new();
    let reg1 = coordinator.register(&vec![
        ShutdownType::Interrupt,
        ShutdownType::Terminate,
    ]);
    assert!(reg1.started_worker);
    let reg2 = coordinator.register(&vec![ShutdownType::Interrupt]);
    assert!(!reg2.started_worker);

    // Releasing the first guard deactivates only Terminate: Interrupt is
    // still held by the second guard.
    let rel1 = coordinator.unregister(reg1.guard);
    assert_eq!(rel1.deactivated, vec![ShutdownType::Terminate]);
    assert!(!rel1.stopped_worker);

    // Releasing the last guard deactivates Interrupt and stops the worker.
    let rel2 = coordinator.unregister(reg2.guard);
    assert_eq!(rel2.deactivated, vec![ShutdownType::Interrupt]);
    assert!(rel2.stopped_worker);
    assert!(coordinator.is_idle());
}

#[test]
fn forgotten_guard_keeps_the_registration() {
    let mut coordinator = Coordinator::new();
    let reg = coordinator.register(&vec![ShutdownType::Interrupt]);
    let expected = reg.guard.callback_id();
    reg.guard.forget();
    match coordinator.dispatch_decision(ShutdownType::Interrupt) {
        DispatchDecision::Invoke { id } => assert_eq!(id, expected),
        DispatchDecision::ExitProcess { .. } => panic!("the registration must survive"),
    }
}
