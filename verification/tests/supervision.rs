use std::sync::Arc;

use loom::config::{ConfigSnapshot, RawManagerConfig, Source};
use loom::deadline::{DeadlineAction, DeadlineQueue, TokenAllocator};
use loom::environment::Environment;
use loom::events::{
    client_step, may_accept, Cleanup, ProcessTokens, Registration, RegistrationStep,
    Source as EventSource, SourceTable, Stage,
};
use loom::identity::ResolvedAccount;
use loom::linux::{
    cgroup_is_empty, cgroup_name, check_control_directory, check_old_socket,
    check_packet_length, check_sent, check_socket_path, domain_name, event_timeout,
    listed_processes, own_cgroup, ready_event, received_packet, startup_reply, startup_timeout,
    timer_value, unwatched_children, NotificationRead, ProcessError, ReadyEvent, READY_BYTE,
};
use loom::manager::{ManagerError, ManagerMode, ShutdownAction};
use loom::model::{
    ManagerScope, ProcessType, RawActions, RawDependencies, RawProcess, RawReadiness, RawServiceDefinition,
    ResolvedIdentity, ServiceDefinition, ServiceId,
};
use loom::protocol::StatusCode;
use loom::runtime::{
    ExitOutcome, ObservedState, RuntimeEffect, RuntimeEngine, RuntimeError, RuntimeEvent, TimerKind,
};
use loom::shutdown::{
    advance_shutdown, begin_shutdown, check_boot, completed_shutdown, enter_rescue, poll_rescue,
    recover_rescue, rescue_reason, should_start_rescue, signal_meaning, BootCheck, Signal,
    SignalMeaning,
};
use loom::supervise::{
    action_running, base_environment, cancel_actions, effect_step, end_attempt, exit_outcome,
    exit_step, expire_action, finish_action, notification_event, notify_environment,
    plan_action, plan_spawn, request_action, spawn_event, ActionRequest, ActionSlot,
    AttemptStep, EffectStep, ExitReport, ExitState, ExitStep, ServiceAction,
};

fn id(name: &str) -> ServiceId {
    ServiceId::new(name).unwrap()
}

fn strings(list: &[&str]) -> Vec<String> {
    list.iter().map(|text| (*text).to_owned()).collect()
}

fn simple() -> RawServiceDefinition {
    RawServiceDefinition::new(RawProcess::new(strings(&["/usr/bin/true"])))
}

fn with_helpers() -> RawServiceDefinition {
    let mut raw = simple();
    raw.actions = RawActions {
        stop: Some(strings(&["/usr/bin/ctl", "stop"])),
        reload: Some(strings(&["/usr/bin/ctl", "reload"])),
    };
    raw
}

fn definition(raw: RawServiceDefinition) -> ServiceDefinition {
    ServiceDefinition::parse(id("web"), Ok(raw), ManagerScope::System).unwrap()
}

fn engine(services: Vec<(&str, RawServiceDefinition)>, manager: RawManagerConfig) -> RuntimeEngine {
    let sources: Vec<Source> = services
        .into_iter()
        .map(|(name, raw)| (id(name), Ok(raw)))
        .collect();
    RuntimeEngine::new(Arc::new(
        ConfigSnapshot::build(Ok(manager), sources, ManagerScope::System).unwrap(),
    ))
}

fn manager(wants: &[&str]) -> RawManagerConfig {
    let mut raw = RawManagerConfig::new("boot");
    let lists = RawDependencies {
        wants: strings(wants),
        ..RawDependencies::default()
    };
    raw.groups.push(("boot".into(), lists));
    raw
}

fn account() -> ResolvedAccount {
    ResolvedAccount {
        name: "alice".into(),
        home: "/home/alice".into(),
        shell: "/bin/zsh".into(),
        identity: ResolvedIdentity {
            uid: 1000,
            gid: 100,
            supplementary_groups: vec![18],
        },
    }
}

fn entries(environment: &Environment) -> Vec<(String, String)> {
    (0..environment.len())
        .map(|i| (environment.key(i).to_owned(), environment.value(i).to_owned()))
        .collect()
}

fn value(environment: &Environment, key: &str) -> Option<String> {
    entries(environment)
        .into_iter()
        .find(|(name, _)| name == key)
        .map(|(_, value)| value)
}

fn slot(id_number: u64, service: &str, action: ServiceAction) -> ActionSlot {
    ActionSlot {
        id: id_number,
        service: id(service),
        generation: 1,
        action,
        timed_out: false,
    }
}

#[test]
fn system_services_begin_with_a_search_path_alone() {
    let own = vec![("SECRET".to_owned(), "x".to_owned())];
    let base = base_environment(ManagerMode::System, &own);
    assert_eq!(
        entries(&base),
        vec![(
            "PATH".to_owned(),
            "/usr/local/sbin:/usr/local/bin:/usr/sbin:/usr/bin:/sbin:/bin".to_owned()
        )]
    );
    let own = vec![
        ("B".to_owned(), "2".to_owned()),
        ("LOOM_NOTIFY_FD".to_owned(), "7".to_owned()),
        ("A".to_owned(), "1".to_owned()),
    ];
    let base = base_environment(ManagerMode::User, &own);
    assert_eq!(base.len(), 2);
    assert_eq!(value(&base, "LOOM_NOTIFY_FD"), None);
}

#[test]
fn own_variables_override_those_of_the_account() {
    let mut raw = simple();
    raw.process.environment.insert("HOME", "/srv");
    raw.process.environment.insert("MODE", "test");
    raw.process.readiness = RawReadiness::Notify;
    let service = definition(raw);
    let base = base_environment(ManagerMode::System, &vec![]);
    let mut plan = plan_spawn(&service.process, &account(), ManagerMode::System, &base);
    assert_eq!(plan.command, strings(&["/usr/bin/true"]));
    assert!(plan.notify);
    assert_eq!(value(&plan.environment, "HOME").unwrap(), "/srv");
    assert_eq!(value(&plan.environment, "USER").unwrap(), "alice");
    assert_eq!(value(&plan.environment, "LOGNAME").unwrap(), "alice");
    assert_eq!(value(&plan.environment, "SHELL").unwrap(), "/bin/zsh");
    assert_eq!(value(&plan.environment, "MODE").unwrap(), "test");
    assert_eq!(plan.identity, Some(account().identity));
    notify_environment(&mut plan.environment, 12);
    assert_eq!(value(&plan.environment, "LOOM_NOTIFY_FD").unwrap(), "12");
    let plan = plan_spawn(&service.process, &account(), ManagerMode::User, &base);
    assert_eq!(plan.identity, None);
}

#[test]
fn helpers_learn_the_process_of_their_service() {
    let service = definition(with_helpers());
    let base = base_environment(ManagerMode::System, &vec![]);
    let plan = plan_action(
        strings(&["/usr/bin/ctl", "reload"]),
        4711,
        &service.process,
        &account(),
        ManagerMode::System,
        &base,
    );
    assert_eq!(value(&plan.environment, "LOOM_MAINPID").unwrap(), "4711");
    assert!(!plan.notify);
}

#[test]
fn helpers_run_one_at_a_time() {
    let service = definition(with_helpers());
    let none = Vec::new();
    match request_action(&none, None, &service, ServiceAction::Reload) {
        Err(ManagerError::InvalidTarget(reason)) => assert_eq!(reason, "web is not running"),
        _ => panic!("a service without a process has no helpers"),
    }
    assert_eq!(
        request_action(&none, Some(1), &service, ServiceAction::Reload).unwrap(),
        ActionRequest::Start {
            generation: 1,
            command: strings(&["/usr/bin/ctl", "reload"]),
            timeout_ms: 30_000
        }
    );
    assert_eq!(
        request_action(&none, Some(1), &service, ServiceAction::Stop).unwrap(),
        ActionRequest::Start {
            generation: 1,
            command: strings(&["/usr/bin/ctl", "stop"]),
            timeout_ms: 10_000
        }
    );
    let slots = vec![slot(20, "web", ServiceAction::Reload)];
    assert_eq!(
        request_action(&slots, Some(1), &service, ServiceAction::Reload).unwrap(),
        ActionRequest::Existing(20)
    );
    assert!(matches!(
        request_action(&slots, Some(1), &service, ServiceAction::Stop),
        Err(ManagerError::Runtime(RuntimeError::ApplyInProgress))
    ));
    match request_action(&none, Some(1), &definition(simple()), ServiceAction::Stop) {
        Err(ManagerError::InvalidTarget(reason)) => assert_eq!(reason, "web has no stop action"),
        _ => panic!("the definition names no helper"),
    }
}

#[test]
fn cancelled_helpers_count_as_timed_out() {
    let mut slots = vec![
        slot(20, "web", ServiceAction::Stop),
        slot(21, "db", ServiceAction::Reload),
    ];
    assert!(action_running(&slots, &id("web"), 1));
    assert!(!action_running(&slots, &id("web"), 2));
    assert_eq!(cancel_actions(&mut slots, &id("web"), 1), vec![20]);
    let end = finish_action(&mut slots, 20, true).unwrap();
    assert_eq!(end.status, StatusCode::Timeout);
    assert!(end.signal_main);
    let end = finish_action(&mut slots, 21, true).unwrap();
    assert_eq!(end.status, StatusCode::Success);
    assert!(!end.signal_main);
    assert_eq!(finish_action(&mut slots, 21, true), None);
    let mut slots = vec![slot(22, "db", ServiceAction::Reload)];
    assert!(!expire_action(&mut slots, 7));
    let end = finish_action(&mut slots, 22, false).unwrap();
    assert_eq!(end.status, StatusCode::ServiceFailure);
}

#[test]
fn slow_helpers_are_killed() {
    let mut slots = vec![slot(22, "db", ServiceAction::Reload)];
    assert!(expire_action(&mut slots, 22));
    assert!(slots[0].timed_out);
}

#[test]
fn readiness_messages_become_events() {
    let web = id("web");
    let read = |message: &[u8]| {
        notification_event(&web, 3, &NotificationRead::Message(message.to_vec()), 9)
    };
    assert_eq!(
        read(b"READY"),
        Some(RuntimeEvent::Ready {
            service: id("web"),
            generation: 3,
            at_ms: 9
        })
    );
    assert_eq!(read(b"STATUS warming up"), None);
    let failed = Some(RuntimeEvent::ReadinessFailed {
        service: id("web"),
        generation: 3,
        at_ms: 9,
    });
    assert_eq!(read(b"READY\n"), failed);
    assert_eq!(
        notification_event(&web, 3, &NotificationRead::Closed, 9),
        failed
    );
    assert_eq!(
        notification_event(&web, 3, &NotificationRead::Pending, 9),
        None
    );
}

#[test]
fn exits_and_starts_become_events() {
    assert_eq!(exit_outcome(true, None, Some(0)), ExitOutcome::Success);
    assert_eq!(exit_outcome(false, Some(9), None), ExitOutcome::Signal(9));
    assert_eq!(exit_outcome(false, None, Some(7)), ExitOutcome::ExitCode(7));
    assert_eq!(exit_outcome(false, None, None), ExitOutcome::ExitCode(1));
    assert_eq!(
        spawn_event(&id("web"), 2, false, 5),
        RuntimeEvent::SpawnFailed {
            service: id("web"),
            generation: 2,
            at_ms: 5
        }
    );
}

#[test]
fn stop_helpers_come_before_signals() {
    let engine = engine(
        vec![("db", simple()), ("web", with_helpers())],
        manager(&["web"]),
    );
    let terminate = |name: &str, force| RuntimeEffect::Terminate {
        service: id(name),
        generation: 1,
        force,
    };
    assert_eq!(
        effect_step(&engine, terminate("web", false), 0),
        EffectStep::RunStopAction {
            service: id("web"),
            generation: 1
        }
    );
    assert_eq!(
        effect_step(&engine, terminate("web", true), 0),
        EffectStep::Signal {
            service: id("web"),
            generation: 1,
            force: true
        }
    );
    assert_eq!(
        effect_step(&engine, terminate("db", false), 0),
        EffectStep::Signal {
            service: id("db"),
            generation: 1,
            force: false
        }
    );
    assert_eq!(
        effect_step(
            &engine,
            RuntimeEffect::ArmTimer {
                service: id("db"),
                generation: 1,
                kind: TimerKind::Start,
                after_ms: 50
            },
            100
        ),
        EffectStep::Arm {
            service: id("db"),
            generation: 1,
            kind: TimerKind::Start,
            when_ms: 150
        }
    );
}

#[test]
fn deadlines_fall_due_in_order() {
    let mut queue = DeadlineQueue::new();
    queue.push(30, DeadlineAction::Action(3));
    queue.push(10, DeadlineAction::Action(1));
    queue.push(10, DeadlineAction::Action(2));
    assert_eq!(queue.next_ms(), Some(10));
    assert_eq!(queue.pop_due(9), None);
    assert_eq!(queue.pop_due(20), Some(DeadlineAction::Action(1)));
    assert_eq!(queue.pop_due(20), Some(DeadlineAction::Action(2)));
    assert_eq!(queue.pop_due(20), None);
    assert_eq!(queue.pop_due(30), Some(DeadlineAction::Action(3)));
    assert_eq!(queue.next_ms(), None);
}

#[test]
fn processes_are_registered_step_by_step() {
    let mut tokens = TokenAllocator::new();
    let mut table = SourceTable::new();
    let process = || EventSource::Process {
        service: id("web"),
        generation: 1,
    };
    let first = tokens.allocate();
    assert_eq!(first, 16);
    let mut registration = Registration::begin(process(), true, true, first);
    assert_eq!(
        registration.advance(true, &mut tokens, &mut table),
        RegistrationStep::Add {
            stage: Stage::Notification,
            token: 17
        }
    );
    assert_eq!(
        registration.advance(true, &mut tokens, &mut table),
        RegistrationStep::Add {
            stage: Stage::Domain,
            token: 18
        }
    );
    assert_eq!(
        table.find(17),
        Some(EventSource::Notify {
            service: id("web"),
            generation: 1,
            token: 17
        })
    );
    assert_eq!(
        registration.advance(true, &mut tokens, &mut table),
        RegistrationStep::Registered(ProcessTokens {
            process: 16,
            notification: Some(17),
            domain: Some(18)
        })
    );
    assert_eq!(table.find(18), Some(process()));
    assert_eq!(table.find(1), Some(EventSource::Listener));
    assert_eq!(table.find(2), Some(EventSource::Signal));
    assert_eq!(table.find(3), Some(EventSource::Timer));
    table.remove(18);
    assert_eq!(table.find(18), None);
}

#[test]
fn failed_registrations_leave_nothing_behind() {
    let mut tokens = TokenAllocator::new();
    let mut table = SourceTable::new();
    let first = tokens.allocate();
    let mut registration = Registration::begin(EventSource::Action(first), false, true, first);
    registration.advance(true, &mut tokens, &mut table);
    assert_eq!(table.find(first), Some(EventSource::Action(first)));
    assert_eq!(
        registration.advance(false, &mut tokens, &mut table),
        RegistrationStep::Failed(Cleanup {
            remove_process: true,
            remove_notification: false,
            kill_domain: true
        })
    );
    assert_eq!(table.find(first), None);
}

#[test]
fn clients_are_served_until_they_hang_up() {
    let event = ReadyEvent {
        token: 20,
        readable: true,
        writable: true,
        hangup: false,
    };
    let step = client_step(event);
    assert!(step.flush && step.receive && !step.remove);
    let step = client_step(ReadyEvent {
        hangup: true,
        ..event
    });
    assert!(step.remove && !step.flush && !step.receive);
    assert!(may_accept(127));
    assert!(!may_accept(128));
    assert_eq!(
        ready_event(20, 0b101, 0b001, 0b100, 0b010),
        event
    );
}

#[test]
fn signals_mean_less_to_user_managers() {
    assert_eq!(
        signal_meaning(Signal::Terminate, ManagerMode::System),
        SignalMeaning::Shutdown(ShutdownAction::Poweroff)
    );
    assert_eq!(
        signal_meaning(Signal::Interrupt, ManagerMode::System),
        SignalMeaning::Shutdown(ShutdownAction::Reboot)
    );
    assert_eq!(
        signal_meaning(Signal::Interrupt, ManagerMode::User),
        SignalMeaning::Shutdown(ShutdownAction::Exit)
    );
    assert_eq!(
        signal_meaning(Signal::Hangup, ManagerMode::User),
        SignalMeaning::Reload
    );
}

fn exited(engine: &mut RuntimeEngine, name: &str, at_ms: u64) {
    let generation = engine.status(&id(name)).unwrap().generation;
    let _ = engine.handle(RuntimeEvent::Exited {
        service: id(name),
        generation,
        outcome: ExitOutcome::Success,
        at_ms,
    });
}

#[test]
fn shutdown_stops_services_before_it_runs_its_group() {
    let mut raw = manager(&["web"]);
    raw.groups.push((
        "halt".into(),
        RawDependencies {
            wants: strings(&["sync"]),
            ..RawDependencies::default()
        },
    ));
    raw.shutdown_group = Some("halt".into());
    let mut engine = engine(vec![("sync", simple()), ("web", simple())], raw);
    engine.start(&id("boot"), 1).unwrap();
    let _ = engine.handle(RuntimeEvent::ExecSucceeded {
        service: id("web"),
        generation: 1,
        at_ms: 2,
    });
    let mut shutdown = None;
    let effects = begin_shutdown(&mut engine, &mut shutdown, ShutdownAction::Reboot).unwrap();
    assert!(matches!(
        &effects[0],
        RuntimeEffect::Terminate { service, .. } if service.as_str() == "web"
    ));
    assert!(!effects
        .iter()
        .any(|effect| matches!(effect, RuntimeEffect::Spawn { .. })));
    let again = begin_shutdown(&mut engine, &mut shutdown, ShutdownAction::Poweroff).unwrap();
    assert!(again.is_empty());
    assert!(advance_shutdown(&mut engine, &mut shutdown, false, 3).is_none());
    exited(&mut engine, "web", 4);
    assert!(advance_shutdown(&mut engine, &mut shutdown, false, 5).is_none());
    assert_eq!(completed_shutdown(&engine, &shutdown, true), None);

    let effects = advance_shutdown(&mut engine, &mut shutdown, true, 6).unwrap();
    assert!(matches!(
        &effects[0],
        RuntimeEffect::Spawn { service, .. } if service.as_str() == "sync"
    ));
    assert!(advance_shutdown(&mut engine, &mut shutdown, false, 7).is_none());
    let _ = engine.handle(RuntimeEvent::SpawnFailed {
        service: id("sync"),
        generation: 1,
        at_ms: 8,
    });
    assert!(advance_shutdown(&mut engine, &mut shutdown, true, 9).is_some());
    assert!(advance_shutdown(&mut engine, &mut shutdown, true, 10).is_none());
    assert_eq!(completed_shutdown(&engine, &shutdown, false), None);
    assert_eq!(
        completed_shutdown(&engine, &shutdown, true),
        Some(ShutdownAction::Reboot)
    );
}

#[test]
fn shutdown_without_a_group_is_over_once_services_have_stopped() {
    let mut engine = engine(vec![("web", simple())], manager(&["web"]));
    engine.start(&id("boot"), 1).unwrap();
    let mut shutdown = None;
    begin_shutdown(&mut engine, &mut shutdown, ShutdownAction::Poweroff).unwrap();
    assert_eq!(completed_shutdown(&engine, &shutdown, true), None);
    exited(&mut engine, "web", 2);
    assert!(advance_shutdown(&mut engine, &mut shutdown, true, 3).is_none());
    assert_eq!(
        completed_shutdown(&engine, &shutdown, true),
        Some(ShutdownAction::Poweroff)
    );
}

#[test]
fn shutdown_waits_for_the_services_of_its_group_to_finish() {
    let mut oneshot = simple();
    oneshot.process.kind = ProcessType::Oneshot;
    let mut raw = manager(&[]);
    raw.groups.push((
        "halt".into(),
        RawDependencies {
            wants: strings(&["sync", "umount"]),
            ..RawDependencies::default()
        },
    ));
    raw.shutdown_group = Some("halt".into());
    let mut engine = engine(vec![("sync", simple()), ("umount", oneshot)], raw);
    let mut shutdown = None;
    begin_shutdown(&mut engine, &mut shutdown, ShutdownAction::Poweroff).unwrap();
    advance_shutdown(&mut engine, &mut shutdown, true, 1).unwrap();
    exited(&mut engine, "umount", 2);
    let _ = engine.handle(RuntimeEvent::ExecSucceeded {
        service: id("sync"),
        generation: 1,
        at_ms: 3,
    });
    for name in ["sync", "umount"] {
        assert_eq!(
            engine.status(&id(name)).unwrap().observed,
            ObservedState::Active
        );
    }
    assert_eq!(engine.is_through(&id("umount")), Some(true));
    assert_eq!(engine.is_through(&id("sync")), Some(false));
    assert_eq!(engine.is_through(&id("gone")), None);
    assert!(advance_shutdown(&mut engine, &mut shutdown, false, 4).is_none());
    exited(&mut engine, "sync", 5);
    let effects = advance_shutdown(&mut engine, &mut shutdown, true, 6).unwrap();
    assert!(effects.is_empty());
    assert_eq!(
        completed_shutdown(&engine, &shutdown, true),
        Some(ShutdownAction::Poweroff)
    );
}

#[test]
fn shutdown_gives_up_a_configuration_that_waits() {
    let mut changed = simple();
    changed.process.command = strings(&["/usr/bin/false"]);
    let replacement = ConfigSnapshot::build(
        Ok(manager(&["web"])),
        vec![(id("web"), Ok(changed))],
        ManagerScope::System,
    )
    .unwrap();
    let mut engine = engine(vec![("web", simple())], manager(&["web"]));
    engine.start(&id("boot"), 1).unwrap();
    engine.apply_snapshot(Arc::new(replacement), 2).unwrap();
    assert!(engine.apply_pending());
    let mut shutdown = None;
    begin_shutdown(&mut engine, &mut shutdown, ShutdownAction::Poweroff).unwrap();
    assert!(!engine.apply_pending());
    let effects = engine.handle(RuntimeEvent::Exited {
        service: id("web"),
        generation: 1,
        outcome: ExitOutcome::Success,
        at_ms: 3,
    });
    assert!(effects.is_empty());
    assert_eq!(
        completed_shutdown(&engine, &shutdown, true),
        Some(ShutdownAction::Poweroff)
    );
}

#[test]
fn rescue_goes_on_until_the_system_recovers() {
    let mut rescue = None;
    assert!(enter_rescue(&mut rescue, "no disk".into(), false));
    assert!(!enter_rescue(&mut rescue, "other".into(), false));
    assert_eq!(rescue_reason(&rescue), Some("no disk".to_owned()));
    assert!(should_start_rescue(&rescue, false));
    assert!(!should_start_rescue(&rescue, true));
    rescue.as_mut().unwrap().running = true;
    assert!(!poll_rescue(&mut rescue, false, false));
    assert!(poll_rescue(&mut rescue, true, false));
    assert!(!recover_rescue(&mut rescue));
    assert_eq!(rescue_reason(&rescue), None);
    assert!(!poll_rescue(&mut rescue, true, false));
    assert!(rescue.is_none());
}

#[test]
fn failed_boot_chains_are_found() {
    let mut raw = RawManagerConfig::new("boot");
    raw.groups.push((
        "boot".into(),
        RawDependencies {
            requires: strings(&["web"]),
            ..RawDependencies::default()
        },
    ));
    let mut engine = engine(vec![("web", simple())], raw);
    engine.start(&id("boot"), 0).unwrap();
    assert_eq!(
        check_boot(&engine, ManagerMode::System, false, false),
        BootCheck::Waiting
    );
    let _ = engine.handle(RuntimeEvent::SpawnFailed {
        service: id("web"),
        generation: 1,
        at_ms: 1,
    });
    assert_eq!(
        check_boot(&engine, ManagerMode::System, false, false),
        BootCheck::Failed("required boot chain failed: boot -> web".to_owned())
    );
    assert_eq!(
        check_boot(&engine, ManagerMode::User, false, false),
        BootCheck::Waiting
    );
}

#[test]
fn cgroup_files_are_read() {
    assert_eq!(cgroup_is_empty(&b"populated 0\nfrozen 0\n".to_vec()), Ok(true));
    assert_eq!(cgroup_is_empty(&b"frozen 0\npopulated 1\n".to_vec()), Ok(false));
    assert_eq!(
        cgroup_is_empty(&b"populated 2\n".to_vec()),
        Err("missing cgroup populated state")
    );
    assert_eq!(
        cgroup_is_empty(&vec![0xff]),
        Err("invalid cgroup.events")
    );
    assert_eq!(
        own_cgroup("1:name=x:/a\n0::/user.slice/session\n"),
        Some("user.slice/session".to_owned())
    );
    assert_eq!(own_cgroup("1:name=x:/a\n"), None);
    assert_eq!(cgroup_name(true, 9), "loom");
    assert_eq!(cgroup_name(false, 9), "loom-user-9");
    assert_eq!(domain_name("web", 3), "web-3");
    let list = listed_processes("12\n-3\n+4\n");
    assert_eq!(list.pids, vec![12, -3, 4]);
    assert!(list.valid);
    let list = listed_processes("12\nx\n13\n");
    assert_eq!(list.pids, vec![12]);
    assert!(!list.valid);
    assert!(!listed_processes("1\n\n2\n").valid);
    assert!(!listed_processes("2147483648\n").valid);
}

#[test]
fn watched_children_are_not_reaped() {
    let list = unwatched_children("10 11  12\n", &vec![11]);
    assert_eq!(list.pids, vec![10, 12]);
    assert!(list.valid);
    assert!(!unwatched_children("10 -1", &vec![]).valid);
}

#[test]
fn timers_are_never_switched_off_by_accident() {
    assert_eq!(timer_value(0, 0), (0, 1));
    assert_eq!(timer_value(2, 5), (2, 5));
    assert_eq!(timer_value(u64::MAX, 0), (i64::MAX, 0));
    assert_eq!(check_socket_path(&b"/run/a".to_vec(), 108), Ok(()));
    assert_eq!(
        check_socket_path(&vec![b'a'; 108], 108),
        Err("socket path is too long")
    );
    assert_eq!(
        check_socket_path(&vec![b'a', 0], 108),
        Err("socket path contains NUL")
    );
}

#[test]
fn process_errors_speak_plainly() {
    let error = ProcessError::Pidfd {
        pid: 12,
        reason: "no such process".into(),
    };
    assert_eq!(error.message(), "pidfd_open failed for PID 12: no such process");
    let error = ProcessError::PrepareIo {
        stream: "stdout",
        reason: "denied".into(),
    };
    assert_eq!(error.message(), "failed to prepare stdout: denied");
    assert_eq!(
        ProcessError::InvalidPid(9).message(),
        "PID 9 does not fit Linux pid_t"
    );
}

#[test]
fn a_process_ends_when_nothing_of_it_is_left() {
    let mut state = ExitState::Running;
    assert_eq!(exit_step(&mut state, ExitReport::Begin), ExitStep::AskLeader);
    assert_eq!(exit_step(&mut state, ExitReport::Leader(None)), ExitStep::Wait);
    assert_eq!(
        exit_step(&mut state, ExitReport::Domain { empty: true }),
        ExitStep::AskLeader
    );
    let outcome = ExitOutcome::ExitCode(3);
    assert_eq!(
        exit_step(&mut state, ExitReport::Leader(Some(outcome))),
        ExitStep::KillDomain
    );
    assert_eq!(state, ExitState::Left(outcome));
    assert_eq!(exit_step(&mut state, ExitReport::Begin), ExitStep::AskDomain);
    assert_eq!(
        exit_step(&mut state, ExitReport::Domain { empty: false }),
        ExitStep::Wait
    );
    assert_eq!(
        exit_step(&mut state, ExitReport::Leader(Some(ExitOutcome::Success))),
        ExitStep::AskDomain
    );
    assert_eq!(
        exit_step(&mut state, ExitReport::Domain { empty: true }),
        ExitStep::Ended(outcome)
    );
}

#[test]
fn waits_are_bounded_in_milliseconds() {
    assert_eq!(event_timeout(None), -1);
    assert_eq!(event_timeout(Some((2, 999_999))), 2000);
    assert_eq!(event_timeout(Some((0, 0))), 0);
    assert_eq!(event_timeout(Some((u64::MAX, 0))), i32::MAX);
    assert_eq!(startup_timeout(0, 0), None);
    assert_eq!(startup_timeout(0, 1), Some(1));
    assert_eq!(startup_timeout(1, 500_000_000), Some(1500));
    assert_eq!(startup_timeout(u64::MAX, 0), Some(i32::MAX));
    assert_eq!(READY_BYTE, b'R');
    assert_eq!(startup_reply(1, b'R'), Ok(()));
    assert_eq!(startup_reply(1, b'X'), Err("user manager exited before readiness"));
    assert_eq!(startup_reply(0, b'R'), Err("user manager exited before readiness"));
}

#[test]
fn packets_are_taken_whole_or_not_at_all() {
    assert_eq!(check_packet_length(65536), Ok(()));
    assert_eq!(
        check_packet_length(65537),
        Err("control packet exceeds hard limit")
    );
    assert_eq!(received_packet(vec![1, 2, 3], 2), Ok(vec![1, 2]));
    assert_eq!(
        received_packet(vec![1, 2, 3], 4),
        Err("control packet exceeds hard limit")
    );
    assert_eq!(check_sent(4, 4), Ok(()));
    assert_eq!(check_sent(3, 4), Err("short seqpacket send"));
}

#[test]
fn control_sockets_belong_to_their_manager() {
    assert_eq!(check_old_socket(true, 9, 9), Ok(()));
    let refused = Err("refusing to replace unsafe control socket path");
    assert_eq!(check_old_socket(false, 9, 9), refused);
    assert_eq!(check_old_socket(true, 8, 9), refused);
    assert_eq!(check_control_directory(true, 9, 9), Ok(()));
    assert_eq!(
        check_control_directory(true, 0, 9),
        Err("unsafe Loom control directory")
    );
}

#[test]
fn attempts_outlive_their_helpers() {
    let mut slots = vec![slot(20, "web", ServiceAction::Reload)];
    let web = id("web");
    assert_eq!(
        end_attempt(&mut slots, &web, 1, None, 5),
        AttemptStep::GoesOn
    );
    let outcome = ExitOutcome::Signal(15);
    assert_eq!(
        end_attempt(&mut slots, &web, 1, Some(outcome), 5),
        AttemptStep::KillHelpers(vec![20])
    );
    assert_eq!(
        finish_action(&mut slots, 20, true).unwrap().status,
        StatusCode::Timeout
    );
    assert_eq!(
        end_attempt(&mut slots, &web, 1, Some(outcome), 6),
        AttemptStep::Over(RuntimeEvent::Exited {
            service: id("web"),
            generation: 1,
            outcome,
            at_ms: 6,
        })
    );
}
