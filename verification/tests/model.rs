use grace::backend::{
    classify_default, console_delegate_plan, console_event_action, console_event_kind,
    delegate_plan, kind_of_signal, reraise_followup, signal_for_kind, DefaultAction,
    DelegateAction, PrevHandler, CTRL_BREAK_EVENT, CTRL_CLOSE_EVENT, CTRL_C_EVENT,
    CTRL_LOGOFF_EVENT, CTRL_SHUTDOWN_EVENT, SIGCHLD, SIGCONT, SIGINT, SIGSEGV, SIGTERM, SIGTSTP,
    TERMINATE_EXIT_CODE,
};
use grace::bridge::{load_and_reset, Bridge};
use grace::cell::SignalSafeCell;
use grace::stack::{DispatchOutcome, HandlerTable, SignalHandlerGuard};
use grace::ShutdownType;

#[test]
fn classification_covers_every_class() {
    assert_eq!(classify_default(SIGCHLD), DefaultAction::NoOp);
    assert_eq!(classify_default(SIGCONT), DefaultAction::NoOp);
    assert_eq!(classify_default(SIGTSTP), DefaultAction::Stop);
    assert_eq!(classify_default(SIGSEGV), DefaultAction::Abort);
    assert_eq!(classify_default(6), DefaultAction::Abort);
    assert_eq!(classify_default(SIGTERM), DefaultAction::Terminate);
    assert_eq!(classify_default(SIGINT), DefaultAction::Terminate);
    assert_eq!(classify_default(1), DefaultAction::Terminate);
    assert_eq!(classify_default(9), DefaultAction::Unclassified);
    assert_eq!(classify_default(19), DefaultAction::Unclassified);
    assert_eq!(classify_default(64), DefaultAction::Unclassified);
    assert_eq!(classify_default(0), DefaultAction::Unclassified);
}

#[test]
fn delegation_follows_the_captured_handler() {
    assert_eq!(
        delegate_plan(&PrevHandler::Ignored, SIGTERM),
        DelegateAction::Nothing
    );
    assert_eq!(
        delegate_plan(&PrevHandler::Explicit { handle: 7 }, SIGTERM),
        DelegateAction::InvokeExplicit { handle: 7 }
    );
    assert_eq!(
        delegate_plan(&PrevHandler::Default, SIGCHLD),
        DelegateAction::Nothing
    );
    assert_eq!(
        delegate_plan(&PrevHandler::Default, SIGTSTP),
        DelegateAction::RaiseStop
    );
    assert_eq!(
        delegate_plan(&PrevHandler::Default, SIGSEGV),
        DelegateAction::AbortProcess
    );
    assert_eq!(
        delegate_plan(&PrevHandler::Default, SIGTERM),
        DelegateAction::ExitProcess { code: 3 }
    );
    assert_eq!(
        delegate_plan(&PrevHandler::Default, 64),
        DelegateAction::ReraiseAndRecheck
    );
}

#[test]
fn terminate_exit_code_matches_the_platform_convention() {
    assert_eq!(TERMINATE_EXIT_CODE, 3);
    assert_eq!(
        console_delegate_plan(&PrevHandler::Default),
        DelegateAction::ExitProcess { code: 3 }
    );
    assert_eq!(
        console_delegate_plan(&PrevHandler::Ignored),
        DelegateAction::Nothing
    );
    assert_eq!(
        console_delegate_plan(&PrevHandler::Explicit { handle: 4 }),
        DelegateAction::InvokeExplicit { handle: 4 }
    );
}

#[test]
fn reraise_race_detection() {
    assert!(!reraise_followup(&PrevHandler::Default, &PrevHandler::Default));
    assert!(reraise_followup(
        &PrevHandler::Default,
        &PrevHandler::Explicit { handle: 1 }
    ));
    assert!(!reraise_followup(
        &PrevHandler::Explicit { handle: 1 },
        &PrevHandler::Explicit { handle: 1 }
    ));
    assert!(reraise_followup(
        &PrevHandler::Explicit { handle: 1 },
        &PrevHandler::Explicit { handle: 2 }
    ));
}

#[test]
fn console_events_map_to_kinds() {
    assert_eq!(
        console_event_kind(CTRL_C_EVENT),
        Some(ShutdownType::Interrupt)
    );
    assert_eq!(
        console_event_kind(CTRL_BREAK_EVENT),
        Some(ShutdownType::Interrupt)
    );
    assert_eq!(
        console_event_kind(CTRL_CLOSE_EVENT),
        Some(ShutdownType::Terminate)
    );
    assert_eq!(
        console_event_kind(CTRL_LOGOFF_EVENT),
        Some(ShutdownType::Terminate)
    );
    assert_eq!(
        console_event_kind(CTRL_SHUTDOWN_EVENT),
        Some(ShutdownType::Terminate)
    );
    assert_eq!(console_event_kind(3), None);
    assert_eq!(console_event_kind(9), None);
    assert!(console_event_action(CTRL_C_EVENT, ShutdownType::Interrupt));
    assert!(!console_event_action(CTRL_C_EVENT, ShutdownType::Terminate));
    assert!(console_event_action(CTRL_SHUTDOWN_EVENT, ShutdownType::Terminate));
    assert!(!console_event_action(9, ShutdownType::Interrupt));
}

#[test]
fn kinds_and_signal_numbers_invert() {
    assert_eq!(signal_for_kind(ShutdownType::Interrupt), SIGINT);
    assert_eq!(signal_for_kind(ShutdownType::Terminate), SIGTERM);
    assert_eq!(kind_of_signal(SIGINT), Some(ShutdownType::Interrupt));
    assert_eq!(kind_of_signal(SIGTERM), Some(ShutdownType::Terminate));
    assert_eq!(kind_of_signal(9), None);
    assert_eq!(kind_of_signal(0), None);
}

#[test]
fn cell_reads_never_tear_during_a_write() {
    let mut cell = SignalSafeCell::new(10);
    assert_eq!(cell.read(), 10);
    cell.begin_write();
    assert_eq!(cell.read(), 10);
    cell.store(20);
    assert_eq!(cell.read(), 10);
    cell.release_back();
    assert_eq!(cell.read(), 20);
    cell.commit_front();
    assert_eq!(cell.read(), 20);
    cell.write(30);
    assert_eq!(cell.read(), 30);
}

#[test]
fn drain_orders_interrupts_before_terminates() {
    let mut bridge = Bridge::new();
    bridge.record(ShutdownType::Interrupt);
    bridge.record(ShutdownType::Terminate);
    bridge.record(ShutdownType::Interrupt);
    bridge.record(ShutdownType::Terminate);
    bridge.record(ShutdownType::Interrupt);
    let plan = bridge.drain();
    assert_eq!(
        plan,
        vec![
            ShutdownType::Interrupt,
            ShutdownType::Interrupt,
            ShutdownType::Interrupt,
            ShutdownType::Terminate,
            ShutdownType::Terminate,
        ]
    );
    assert_eq!(bridge.drain(), Vec::<ShutdownType>::new());
}

#[test]
fn load_and_reset_returns_and_clears() {
    let mut counter: usize = 5;
    assert_eq!(load_and_reset(&mut counter), 5);
    assert_eq!(counter, 0);
    assert_eq!(load_and_reset(&mut counter), 0);
}

#[test]
fn stop_handshake_round_trip() {
    let mut bridge = Bridge::new();
    assert!(bridge.should_run());
    bridge.record(ShutdownType::Interrupt);
    bridge.request_stop();
    assert!(!bridge.should_run());
    let plan = bridge.drain();
    assert_eq!(plan, vec![ShutdownType::Interrupt]);
    bridge.acknowledge_stop();
    assert!(bridge.should_run());
}

#[test]
fn record_signal_consumes_and_counts() {
    let mut bridge = Bridge::new();
    assert!(bridge.record_signal(SIGINT));
    assert!(bridge.record_signal(SIGTERM));
    assert!(bridge.record_signal(SIGINT));
    let plan = bridge.drain();
    assert_eq!(
        plan,
        vec![
            ShutdownType::Interrupt,
            ShutdownType::Interrupt,
            ShutdownType::Terminate,
        ]
    );
}

#[test]
fn dispatch_order_is_lifo_at_every_state() {
    let mut table = HandlerTable::new();
    let a = table.add_handler(&vec![SIGINT]).id;
    assert_eq!(table.dispatch_order(SIGINT), vec![a]);
    let b = table.add_handler(&vec![SIGINT]).id;
    assert_eq!(table.dispatch_order(SIGINT), vec![b, a]);
    let c = table.add_handler(&vec![SIGINT]).id;
    assert_eq!(table.dispatch_order(SIGINT), vec![c, b, a]);
    table.remove_handler(&vec![SIGINT], b);
    assert_eq!(table.dispatch_order(SIGINT), vec![c, a]);
    table.remove_handler(&vec![SIGINT], c);
    assert_eq!(table.dispatch_order(SIGINT), vec![a]);
    let d = table.add_handler(&vec![SIGINT]).id;
    assert_eq!(table.dispatch_order(SIGINT), vec![d, a]);
}

#[test]
fn double_add_pushes_twice() {
    let mut table = HandlerTable::new();
    let added = table.add_handler(&vec![SIGINT, SIGINT]);
    assert_eq!(added.needs_install, vec![SIGINT]);
    assert_eq!(table.dispatch_order(SIGINT), vec![added.id, added.id]);
    table.remove_handler(&vec![SIGINT], added.id);
    assert_eq!(table.dispatch_order(SIGINT), vec![added.id]);
}

#[test]
fn install_needed_only_on_first_registration() {
    let mut table = HandlerTable::new();
    let first = table.add_handler(&vec![SIGINT, SIGTERM]);
    assert_eq!(first.needs_install, vec![SIGINT, SIGTERM]);
    let second = table.add_handler(&vec![SIGINT]);
    assert_eq!(second.needs_install, Vec::<i32>::new());
    let third = table.add_handler(&vec![SIGTERM, SIGCHLD]);
    assert_eq!(third.needs_install, vec![SIGCHLD]);
}

#[test]
fn removing_an_absent_identity_is_silent_at_the_number_level() {
    let mut table = HandlerTable::new();
    let a = table.add_handler(&vec![SIGINT]).id;
    let b = table.add_handler(&vec![SIGTERM]).id;
    table.remove_handler(&vec![SIGINT], b);
    assert_eq!(table.dispatch_order(SIGINT), vec![a]);
    table.remove_handler(&vec![SIGCHLD], a);
    assert_eq!(table.dispatch_order(SIGINT), vec![a]);
    assert_eq!(table.dispatch_order(SIGTERM), vec![b]);
}

#[test]
fn slot_removed_once_its_stack_empties() {
    let mut table = HandlerTable::new();
    let added = table.add_handler(&vec![SIGINT]);
    assert!(table.has_slot(SIGINT));
    table.remove_handler(&vec![SIGINT], added.id);
    assert!(!table.has_slot(SIGINT));
    assert_eq!(table.dispatch_order(SIGINT), Vec::new());
    let again = table.add_handler(&vec![SIGINT]);
    assert_eq!(again.needs_install, vec![SIGINT]);
}

#[test]
fn captured_previous_handler_is_recorded() {
    let mut table = HandlerTable::new();
    table.add_handler(&vec![SIGINT]);
    assert_eq!(table.prev_of(SIGINT), PrevHandler::Default);
    table.set_prev(SIGINT, PrevHandler::Explicit { handle: 11 });
    assert_eq!(table.prev_of(SIGINT), PrevHandler::Explicit { handle: 11 });
    table.add_handler(&vec![SIGINT]);
    assert_eq!(table.prev_of(SIGINT), PrevHandler::Explicit { handle: 11 });
}

#[test]
fn unconsumed_dispatch_delegates_exactly_once() {
    let mut table = HandlerTable::new();
    let a = table.add_handler(&vec![SIGINT]).id;
    let b = table.add_handler(&vec![SIGINT]).id;
    let c = table.add_handler(&vec![SIGINT]).id;
    assert_eq!(
        table.resolve_dispatch(SIGINT, &vec![false, false, false]),
        DispatchOutcome::Delegate
    );
    assert_eq!(
        table.resolve_dispatch(SIGINT, &vec![false, false, true]),
        DispatchOutcome::Consumed { id: c }
    );
    assert_eq!(
        table.resolve_dispatch(SIGINT, &vec![false, true, false]),
        DispatchOutcome::Consumed { id: b }
    );
    assert_eq!(
        table.resolve_dispatch(SIGINT, &vec![true, true, false]),
        DispatchOutcome::Consumed { id: b }
    );
    assert_eq!(
        table.resolve_dispatch(SIGINT, &vec![true, false, false]),
        DispatchOutcome::Consumed { id: a }
    );
    assert_eq!(
        table.resolve_dispatch(SIGTERM, &vec![]),
        DispatchOutcome::NotOurs
    );
}

#[test]
fn handler_at_walks_newest_first_without_materialising_the_order() {
    let mut table = HandlerTable::new();
    let a = table.add_handler(&vec![SIGINT]).id;
    let b = table.add_handler(&vec![SIGINT]).id;
    assert_eq!(table.handler_at(SIGINT, 0), Some(b));
    assert_eq!(table.handler_at(SIGINT, 1), Some(a));
    assert_eq!(table.handler_at(SIGINT, 2), None);
    assert_eq!(table.handler_at(SIGTERM, 0), None);
    assert!(table.can_mint());
}

#[test]
fn drain_plan_builds_the_stable_replay_order() {
    let plan = grace::bridge::drain_plan(2, 1);
    assert_eq!(
        plan,
        vec![
            ShutdownType::Interrupt,
            ShutdownType::Interrupt,
            ShutdownType::Terminate,
        ]
    );
    assert_eq!(grace::bridge::drain_plan(0, 0), Vec::<ShutdownType>::new());
}

#[test]
fn stack_guard_registers_and_releases() {
    let mut table = HandlerTable::new();
    let (guard, installs) = SignalHandlerGuard::new(&mut table, vec![SIGINT, SIGTERM]);
    assert_eq!(installs, vec![SIGINT, SIGTERM]);
    assert!(table.has_slot(SIGINT));
    assert!(table.has_slot(SIGTERM));
    guard.release(&mut table);
    assert!(!table.has_slot(SIGINT));
    assert!(!table.has_slot(SIGTERM));
}

#[test]
fn forgotten_stack_guard_keeps_the_handler() {
    let mut table = HandlerTable::new();
    let (guard, _installs) = SignalHandlerGuard::new(&mut table, vec![SIGINT]);
    guard.forget();
    assert!(table.has_slot(SIGINT));
    assert_eq!(table.dispatch_order(SIGINT).len(), 1);
}
