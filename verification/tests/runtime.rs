use std::sync::Arc;

use loom::config::{ConfigSnapshot, RawManagerConfig, Source};
use loom::critical::find_critical_path;
use loom::model::{
    ManagerScope, ProcessType, RawDependencies, RawProcess, RawServiceDefinition, RawSupervision,
    RestartPolicy, ServiceId,
};
use loom::runtime::{
    DesiredState, ExitOutcome, ObservedState, RuntimeEffect, RuntimeEngine, RuntimeError,
    RuntimeEvent, TimerKind,
};

fn id(name: &str) -> ServiceId {
    ServiceId::new(name).unwrap()
}

fn snapshot(services: Vec<(&str, RawServiceDefinition)>, wants: &[&str]) -> Arc<ConfigSnapshot> {
    let mut manager = RawManagerConfig::new("boot");
    let lists = RawDependencies {
        wants: wants.iter().map(|name| (*name).to_owned()).collect(),
        ..RawDependencies::default()
    };
    manager.groups.push(("boot".into(), lists));
    let sources: Vec<Source> = services
        .into_iter()
        .map(|(name, raw)| (id(name), Ok(raw)))
        .collect();
    Arc::new(ConfigSnapshot::build(Ok(manager), sources, ManagerScope::System).unwrap())
}

fn with_command(command: &str) -> RawServiceDefinition {
    RawServiceDefinition::new(RawProcess::new(vec![command.to_owned()]))
}

fn simple() -> RawServiceDefinition {
    with_command("/usr/bin/true")
}

fn oneshot() -> RawServiceDefinition {
    let mut raw = simple();
    raw.process.kind = ProcessType::Oneshot;
    raw
}

fn requiring(name: &str) -> RawServiceDefinition {
    let mut raw = simple();
    raw.dependencies.requires.push(name.to_owned());
    raw
}

fn supervised(change: fn(&mut RawSupervision)) -> RawServiceDefinition {
    let mut raw = simple();
    change(&mut raw.supervision);
    raw
}

fn spawns(effects: &[RuntimeEffect], name: &str) -> Option<u64> {
    effects.iter().find_map(|effect| match effect {
        RuntimeEffect::Spawn {
            service,
            generation,
        } if service.as_str() == name => Some(*generation),
        _ => None,
    })
}

#[test]
fn starts_all_graph_ready_services_concurrently() {
    let a = simple();
    let b = simple();
    let config = snapshot(vec![("a", a), ("b", b)], &["a", "b"]);
    let mut engine = RuntimeEngine::new(config);

    let effects = engine.start(&id("boot"), 10).unwrap();
    assert!(spawns(&effects, "a").is_some());
    assert!(spawns(&effects, "b").is_some());
    let status = engine.status(&id("a")).unwrap();
    assert_eq!(status.queued_at_ms, Some(10));
    assert_eq!(status.started_at_ms, Some(10));
    assert_eq!(status.ready_at_ms, None);
}

#[test]
fn required_service_gates_dependant_readiness() {
    let db = simple();
    let web = requiring("db");
    let config = snapshot(vec![("db", db), ("web", web)], &["web"]);
    let mut engine = RuntimeEngine::new(config);

    let effects = engine.start(&id("boot"), 0).unwrap();
    let generation = spawns(&effects, "db").unwrap();
    assert!(spawns(&effects, "web").is_none());

    let effects = engine.handle(RuntimeEvent::ExecSucceeded {
        service: id("db"),
        generation,
        at_ms: 1,
    });
    assert!(spawns(&effects, "web").is_some());
}

#[test]
fn ignores_stale_attempt_events() {
    let service = simple();
    let config = snapshot(vec![("svc", service)], &["svc"]);
    let mut engine = RuntimeEngine::new(config);
    let effects = engine.start(&id("boot"), 0).unwrap();
    let generation = spawns(&effects, "svc").unwrap();

    let _ = engine.handle(RuntimeEvent::ExecSucceeded {
        service: id("svc"),
        generation: generation + 1,
        at_ms: 1,
    });
    assert_eq!(
        engine
            .status(&id("svc"))
            .unwrap()
            .observed,
        ObservedState::Starting
    );
}

#[test]
fn oneshot_becomes_active_only_after_successful_exit() {
    let service = oneshot();
    let config = snapshot(vec![("mount", service)], &["mount"]);
    let mut engine = RuntimeEngine::new(config);
    let effects = engine.start(&id("boot"), 0).unwrap();
    let generation = spawns(&effects, "mount").unwrap();

    let _ = engine.handle(RuntimeEvent::ExecSucceeded {
        service: id("mount"),
        generation,
        at_ms: 1,
    });
    assert_eq!(
        engine
            .status(&id("mount"))
            .unwrap()
            .observed,
        ObservedState::Starting
    );
    let _ = engine.handle(RuntimeEvent::Exited {
        service: id("mount"),
        generation,
        outcome: ExitOutcome::Success,
        at_ms: 1,
    });
    assert_eq!(
        engine
            .status(&id("mount"))
            .unwrap()
            .observed,
        ObservedState::Active
    );
}

#[test]
fn restarts_with_backoff_and_stops_at_limit() {
    let service = supervised(|raw| {
        raw.restart = RestartPolicy::OnFailure;
        raw.restart_limit = 1;
        raw.restart_window_ms = 1000;
    });
    let config = snapshot(vec![("svc", service)], &["svc"]);
    let mut engine = RuntimeEngine::new(config);
    let effects = engine.start(&id("boot"), 0).unwrap();
    let generation = spawns(&effects, "svc").unwrap();

    let effects = engine.handle(RuntimeEvent::Exited {
        service: id("svc"),
        generation,
        outcome: ExitOutcome::ExitCode(1),
        at_ms: 10,
    });
    assert!(effects.iter().any(|effect| matches!(
        effect,
        RuntimeEffect::ArmTimer {
            kind: TimerKind::Restart,
            after_ms: 100,
            ..
        }
    )));

    let effects = engine.handle(RuntimeEvent::Timer {
        service: id("svc"),
        generation,
        kind: TimerKind::Restart,
        at_ms: 110,
    });
    let next = spawns(&effects, "svc").unwrap();
    let _ = engine.handle(RuntimeEvent::Exited {
        service: id("svc"),
        generation: next,
        outcome: ExitOutcome::ExitCode(1),
        at_ms: 120,
    });
    assert_eq!(
        engine
            .status(&id("svc"))
            .unwrap()
            .observed,
        ObservedState::Failed
    );
}

#[test]
fn start_timeout_uses_restart_policy_and_configured_stop_timeout() {
    let service = supervised(|raw| {
        raw.restart = RestartPolicy::OnFailure;
        raw.stop_timeout_ms = 123;
    });
    let config = snapshot(vec![("svc", service)], &["svc"]);
    let mut engine = RuntimeEngine::new(config);
    let effects = engine.start(&id("boot"), 0).unwrap();
    let generation = spawns(&effects, "svc").unwrap();

    let effects = engine.handle(RuntimeEvent::Timer {
        service: id("svc"),
        generation,
        kind: TimerKind::Start,
        at_ms: 30_000,
    });
    assert!(effects.iter().any(|effect| matches!(
        effect,
        RuntimeEffect::ArmTimer {
            kind: TimerKind::Stop,
            after_ms: 123,
            ..
        }
    )));

    let effects = engine.handle(RuntimeEvent::Exited {
        service: id("svc"),
        generation,
        outcome: ExitOutcome::Signal(15),
        at_ms: 30_001,
    });
    assert!(effects.iter().any(|effect| matches!(
        effect,
        RuntimeEffect::ArmTimer {
            kind: TimerKind::Restart,
            ..
        }
    )));
}

#[test]
fn required_service_loss_stops_and_later_recovers_dependant() {
    let db = supervised(|raw| {
        raw.restart = RestartPolicy::OnFailure;
        raw.restart_limit = 2;
    });
    let web = requiring("db");
    let config = snapshot(vec![("db", db), ("web", web)], &["web"]);
    let mut engine = RuntimeEngine::new(config);
    let effects = engine.start(&id("boot"), 0).unwrap();
    let db_generation = spawns(&effects, "db").unwrap();
    let effects = engine.handle(RuntimeEvent::ExecSucceeded {
        service: id("db"),
        generation: db_generation,
        at_ms: 1,
    });
    let web_generation = spawns(&effects, "web").unwrap();
    let _ = engine.handle(RuntimeEvent::ExecSucceeded {
        service: id("web"),
        generation: web_generation,
        at_ms: 2,
    });

    let effects = engine.handle(RuntimeEvent::Exited {
        service: id("db"),
        generation: db_generation,
        outcome: ExitOutcome::ExitCode(1),
        at_ms: 3,
    });
    assert!(effects.iter().any(|effect| matches!(
        effect,
        RuntimeEffect::Terminate { service, .. } if service.as_str() == "web"
    )));

    let _ = engine.handle(RuntimeEvent::Exited {
        service: id("web"),
        generation: web_generation,
        outcome: ExitOutcome::Signal(15),
        at_ms: 4,
    });
    let effects = engine.handle(RuntimeEvent::Timer {
        service: id("db"),
        generation: db_generation,
        kind: TimerKind::Restart,
        at_ms: 103,
    });
    let next_db = spawns(&effects, "db").unwrap();
    let effects = engine.handle(RuntimeEvent::ExecSucceeded {
        service: id("db"),
        generation: next_db,
        at_ms: 104,
    });
    assert!(spawns(&effects, "web").is_some());
}

#[test]
fn full_apply_stops_changed_service_before_new_attempt() {
    let old = simple();
    let new = with_command("/bin/false");
    let config = snapshot(vec![("svc", old)], &["svc"]);
    let replacement = snapshot(vec![("svc", new)], &["svc"]);
    let mut engine = RuntimeEngine::new(config);
    let effects = engine.start(&id("boot"), 0).unwrap();
    let generation = spawns(&effects, "svc").unwrap();
    let _ = engine.handle(RuntimeEvent::ExecSucceeded {
        service: id("svc"),
        generation,
        at_ms: 1,
    });

    let effects = engine.apply_snapshot(replacement, 2).unwrap();
    assert!(engine.apply_pending());
    assert!(effects.iter().any(|effect| matches!(
        effect,
        RuntimeEffect::Terminate { service, .. } if service.as_str() == "svc"
    )));

    let effects = engine.handle(RuntimeEvent::Exited {
        service: id("svc"),
        generation,
        outcome: ExitOutcome::Signal(15),
        at_ms: 3,
    });
    assert!(!engine.apply_pending());
    assert!(spawns(&effects, "svc").is_some_and(|next| next > generation));
    assert_eq!(
        engine
            .snapshot()
            .service(&id("svc"))
            .unwrap()
            .process
            .command[0],
        "/bin/false"
    );
}

#[test]
fn stops_dependants_before_required_service() {
    let db = simple();
    let web = requiring("db");
    let config = snapshot(vec![("db", db), ("web", web)], &["web"]);
    let mut engine = RuntimeEngine::new(config);
    let effects = engine.start(&id("boot"), 0).unwrap();
    let db_generation = spawns(&effects, "db").unwrap();
    let effects = engine.handle(RuntimeEvent::ExecSucceeded {
        service: id("db"),
        generation: db_generation,
        at_ms: 1,
    });
    let web_generation = spawns(&effects, "web").unwrap();
    let _ = engine.handle(RuntimeEvent::ExecSucceeded {
        service: id("web"),
        generation: web_generation,
        at_ms: 2,
    });

    let effects = engine.stop(&id("db")).unwrap();
    assert!(effects.iter().any(|effect| matches!(
        effect,
        RuntimeEffect::Terminate { service, .. } if service.as_str() == "web"
    )));
    assert!(!effects.iter().any(|effect| matches!(
        effect,
        RuntimeEffect::Terminate { service, .. } if service.as_str() == "db"
    )));

    let effects = engine.handle(RuntimeEvent::Exited {
        service: id("web"),
        generation: web_generation,
        outcome: ExitOutcome::Success,
        at_ms: 10,
    });
    assert!(effects.iter().any(|effect| matches!(
        effect,
        RuntimeEffect::Terminate { service, .. } if service.as_str() == "db"
    )));
}
#[test]
fn force_stop_preserves_dependency_order_and_escalates_pending_stop() {
    let db = simple();
    let web = requiring("db");
    let mut engine = RuntimeEngine::new(snapshot(vec![("db", db), ("web", web)], &["web"]));
    let effects = engine.start(&id("boot"), 0).unwrap();
    let db_generation = spawns(&effects, "db").unwrap();
    let effects = engine.handle(RuntimeEvent::ExecSucceeded {
        service: id("db"),
        generation: db_generation,
        at_ms: 1,
    });
    let web_generation = spawns(&effects, "web").unwrap();
    let _ = engine.handle(RuntimeEvent::ExecSucceeded {
        service: id("web"),
        generation: web_generation,
        at_ms: 2,
    });
    let _ = engine.stop(&id("db")).unwrap();
    let effects = engine
        .stop_with_force(&id("db"), true)
        .unwrap();
    assert!(effects.iter().any(|effect| matches!(effect, RuntimeEffect::Terminate { service, force: true, .. } if service.as_str() == "web")));
    assert!(!effects.iter().any(|effect| matches!(effect, RuntimeEffect::Terminate { service, .. } if service.as_str() == "db")));
    let effects = engine.handle(RuntimeEvent::Exited {
        service: id("web"),
        generation: web_generation,
        outcome: ExitOutcome::Signal(9),
        at_ms: 3,
    });
    assert!(effects.iter().any(|effect| matches!(effect, RuntimeEffect::Terminate { service, force: true, .. } if service.as_str() == "db")));
}

#[test]
fn only_required_boot_failures_enter_rescue() {
    for (relation, required) in [("requires", true), ("wants", false)] {
        let lists = if relation == "requires" {
            RawDependencies {
                requires: vec!["broken".into()],
                ..RawDependencies::default()
            }
        } else {
            RawDependencies {
                wants: vec!["broken".into()],
                ..RawDependencies::default()
            }
        };
        let mut manager = RawManagerConfig::new("boot");
        manager.groups.push(("boot".into(), lists));
        let config = ConfigSnapshot::build(
            Ok(manager),
            vec![(id("broken"), Ok(oneshot()))],
            ManagerScope::System,
        )
        .unwrap();
        let mut engine = RuntimeEngine::new(Arc::new(config));
        let effects = engine.start(&id("boot"), 0).unwrap();
        let generation = spawns(&effects, "broken").unwrap();
        let _ = engine.handle(RuntimeEvent::Exited {
            service: id("broken"),
            generation,
            outcome: ExitOutcome::ExitCode(1),
            at_ms: 1,
        });
        assert_eq!(
            engine.boot_failure(),
            required.then_some("boot -> broken".to_owned())
        );
    }
}

fn executed(engine: &mut RuntimeEngine, name: &str, generation: u64, at_ms: u64) -> Vec<RuntimeEffect> {
    engine.handle(RuntimeEvent::ExecSucceeded {
        service: id(name),
        generation,
        at_ms,
    })
}

#[test]
fn parallel_starts_are_bounded() {
    let mut manager = RawManagerConfig::new("boot");
    manager.max_starting = 1;
    let lists = RawDependencies {
        wants: vec!["a".into(), "b".into()],
        ..RawDependencies::default()
    };
    manager.groups.push(("boot".into(), lists));
    let sources: Vec<Source> = vec![(id("a"), Ok(simple())), (id("b"), Ok(simple()))];
    let config = ConfigSnapshot::build(Ok(manager), sources, ManagerScope::System).unwrap();
    let mut engine = RuntimeEngine::new(Arc::new(config));
    let effects = engine.start(&id("boot"), 0).unwrap();
    assert_eq!(spawns(&effects, "a"), Some(1));
    assert_eq!(spawns(&effects, "b"), None);
    let effects = executed(&mut engine, "a", 1, 1);
    assert_eq!(spawns(&effects, "b"), Some(1));
}

#[test]
fn conflicting_services_never_run_together() {
    let mut a = simple();
    a.dependencies.conflicts.push("b".into());
    let mut engine = RuntimeEngine::new(snapshot(vec![("a", a), ("b", simple())], &["a"]));
    let effects = engine.start(&id("a"), 0).unwrap();
    assert_eq!(spawns(&effects, "a"), Some(1));
    let effects = engine.start(&id("b"), 1).unwrap();
    assert_eq!(spawns(&effects, "b"), None);
}

#[test]
fn forced_stops_kill_at_once() {
    let mut engine = RuntimeEngine::new(snapshot(vec![("a", simple())], &["a"]));
    let generation = spawns(&engine.start(&id("a"), 0).unwrap(), "a").unwrap();
    executed(&mut engine, "a", generation, 1);
    let effects = engine.stop_with_force(&id("a"), true).unwrap();
    assert!(matches!(
        effects[0],
        RuntimeEffect::Terminate { force: true, .. }
    ));
    assert_eq!(
        engine.status(&id("a")).unwrap().desired,
        DesiredState::Inactive
    );
}

#[test]
fn unknown_targets_and_groups_are_refused() {
    let mut engine = RuntimeEngine::new(snapshot(vec![("a", simple())], &["a"]));
    assert!(matches!(
        engine.start(&id("gone"), 0),
        Err(RuntimeError::UnknownTarget(name)) if name.as_str() == "gone"
    ));
    assert!(engine.restart(&id("boot"), 0).is_err());
    assert_eq!(
        engine.reset_failed(&id("gone")),
        Err(RuntimeError::UnknownTarget(id("gone")))
    );
    assert_eq!(
        RuntimeError::ApplyInProgress.message(),
        "another configuration apply is already in progress"
    );
}

#[test]
fn a_second_configuration_waits_for_the_first() {
    let mut engine = RuntimeEngine::new(snapshot(vec![("a", simple())], &["a"]));
    let generation = spawns(&engine.start(&id("a"), 0).unwrap(), "a").unwrap();
    executed(&mut engine, "a", generation, 1);
    engine
        .apply_snapshot(snapshot(vec![("a", with_command("/bin/false"))], &["a"]), 2)
        .unwrap();
    assert_eq!(
        engine.apply_snapshot(snapshot(vec![("a", simple())], &["a"]), 3),
        Err(RuntimeError::ApplyInProgress)
    );
}

#[test]
fn only_the_same_services_can_be_reloaded() {
    let mut engine = RuntimeEngine::new(snapshot(vec![("a", simple())], &["a"]));
    assert_eq!(
        engine.replace_snapshot(snapshot(vec![("a", with_command("/bin/false"))], &["a"])),
        Err(RuntimeError::DefinitionChange)
    );
    assert_eq!(
        engine.replace_snapshot(snapshot(vec![("a", simple())], &[])),
        Ok(())
    );
    assert!(!engine.snapshot().is_enabled(&id("a")));
}

#[test]
fn restart_pauses_double_up_to_their_bound() {
    let service = supervised(|raw| {
        raw.restart = RestartPolicy::Always;
        raw.restart_limit = 10;
        raw.restart_backoff_max_ms = 350;
    });
    let mut engine = RuntimeEngine::new(snapshot(vec![("a", service)], &["a"]));
    let mut generation = spawns(&engine.start(&id("a"), 0).unwrap(), "a").unwrap();
    let mut pauses = Vec::new();
    for round in 1..=4 {
        let effects = engine.handle(RuntimeEvent::Exited {
            service: id("a"),
            generation,
            outcome: ExitOutcome::ExitCode(1),
            at_ms: round,
        });
        for effect in &effects {
            if let RuntimeEffect::ArmTimer {
                kind: TimerKind::Restart,
                after_ms,
                ..
            } = effect
            {
                pauses.push(*after_ms);
            }
        }
        let effects = engine.handle(RuntimeEvent::Timer {
            service: id("a"),
            generation,
            kind: TimerKind::Restart,
            at_ms: round,
        });
        generation = spawns(&effects, "a").unwrap();
    }
    assert_eq!(pauses, vec![100, 200, 350, 350]);
}

#[test]
fn plans_show_what_applying_would_do() {
    let mut engine = RuntimeEngine::new(snapshot(
        vec![("kept", simple()), ("changed", simple()), ("gone", simple())],
        &["kept", "changed", "gone"],
    ));
    let effects = engine.start(&id("boot"), 0).unwrap();
    for name in ["kept", "changed", "gone"] {
        let generation = spawns(&effects, name).unwrap();
        executed(&mut engine, name, generation, 1);
    }
    let plan = engine.plan_snapshot(&snapshot(
        vec![
            ("kept", simple()),
            ("changed", with_command("/bin/false")),
            ("new", simple()),
        ],
        &["kept", "changed", "new"],
    ));
    assert_eq!(plan.start, vec!["new"]);
    assert_eq!(plan.stop, vec!["gone"]);
    assert_eq!(plan.restart, vec!["changed"]);
    assert_eq!(plan.update, vec!["changed", "new"]);
    assert_eq!(plan.remove, vec!["gone"]);
}

#[test]
fn a_restart_is_a_new_attempt() {
    let mut engine = RuntimeEngine::new(snapshot(vec![("a", simple())], &["a"]));
    let generation = spawns(&engine.start(&id("a"), 0).unwrap(), "a").unwrap();
    executed(&mut engine, "a", generation, 1);
    let effects = engine.restart(&id("a"), 2).unwrap();
    assert!(effects
        .iter()
        .any(|effect| matches!(effect, RuntimeEffect::Terminate { .. })));
    let effects = engine.handle(RuntimeEvent::Exited {
        service: id("a"),
        generation,
        outcome: ExitOutcome::Signal(15),
        at_ms: 3,
    });
    assert_eq!(spawns(&effects, "a"), Some(generation + 1));
}

#[test]
fn a_cleared_failure_leaves_the_service_inactive() {
    let mut engine = RuntimeEngine::new(snapshot(vec![("a", oneshot())], &["a"]));
    let generation = spawns(&engine.start(&id("a"), 0).unwrap(), "a").unwrap();
    let _ = engine.handle(RuntimeEvent::SpawnFailed {
        service: id("a"),
        generation,
        at_ms: 1,
    });
    assert_eq!(
        engine.status(&id("a")).unwrap().observed,
        ObservedState::Failed
    );
    engine.reset_failed(&id("a")).unwrap();
    assert_eq!(
        engine.status(&id("a")).unwrap().observed,
        ObservedState::Inactive
    );
}

fn built(
    services: Vec<(&str, RawServiceDefinition)>,
    groups: Vec<(&str, RawDependencies)>,
) -> RuntimeEngine {
    let mut manager = RawManagerConfig::new("boot");
    for (name, lists) in groups {
        manager.groups.push((name.into(), lists));
    }
    let sources: Vec<Source> = services
        .into_iter()
        .map(|(name, raw)| (id(name), Ok(raw)))
        .collect();
    RuntimeEngine::new(Arc::new(
        ConfigSnapshot::build(Ok(manager), sources, ManagerScope::System).unwrap(),
    ))
}

fn required(names: &[&str]) -> RawDependencies {
    RawDependencies {
        requires: names.iter().map(|name| (*name).to_owned()).collect(),
        ..RawDependencies::default()
    }
}

fn wanted(names: &[&str]) -> RawDependencies {
    RawDependencies {
        wants: names.iter().map(|name| (*name).to_owned()).collect(),
        ..RawDependencies::default()
    }
}

fn exited(
    engine: &mut RuntimeEngine,
    name: &str,
    outcome: ExitOutcome,
    at_ms: u64,
) -> Vec<RuntimeEffect> {
    let generation = engine.status(&id(name)).unwrap().generation;
    engine.handle(RuntimeEvent::Exited {
        service: id(name),
        generation,
        outcome,
        at_ms,
    })
}

fn observed(engine: &RuntimeEngine, name: &str) -> ObservedState {
    engine.status(&id(name)).unwrap().observed
}

fn terminated(effects: &[RuntimeEffect]) -> Vec<&str> {
    effects
        .iter()
        .filter_map(|effect| match effect {
            RuntimeEffect::Terminate { service, .. } => Some(service.as_str()),
            _ => None,
        })
        .collect()
}

#[test]
fn events_of_former_attempts_change_nothing() {
    let mut engine = RuntimeEngine::new(snapshot(
        vec![("db", simple()), ("web", requiring("db"))],
        &["web"],
    ));
    engine.start(&id("boot"), 0).unwrap();
    let before = engine.status(&id("db")).unwrap();
    let waiting = engine.status(&id("web")).unwrap();
    let generation = before.generation - 1;
    assert_eq!(generation, 0);
    assert_eq!(executed(&mut engine, "db", generation, 5), vec![]);
    assert_eq!(
        engine.handle(RuntimeEvent::Exited {
            service: id("db"),
            generation,
            outcome: ExitOutcome::ExitCode(1),
            at_ms: 6,
        }),
        vec![]
    );
    assert_eq!(engine.status(&id("db")).unwrap(), before);
    assert_eq!(engine.status(&id("web")).unwrap(), waiting);
    assert_eq!(before.observed, ObservedState::Starting);
    assert_eq!(waiting.observed, ObservedState::Inactive);
    assert_eq!(waiting.blocked_by, None);
}

#[test]
fn waiting_for_a_start_is_no_boot_failure() {
    let mut engine = built(
        vec![("db", simple()), ("web", requiring("db")), ("x", simple())],
        vec![("boot", required(&["web", "x"]))],
    );
    engine.start(&id("boot"), 0).unwrap();
    let _ = executed(&mut engine, "x", 1, 1);
    assert_eq!(observed(&engine, "db"), ObservedState::Starting);
    assert_eq!(observed(&engine, "web"), ObservedState::Inactive);
    assert_eq!(engine.boot_failure(), None);
    let effects = executed(&mut engine, "db", 1, 2);
    assert_eq!(spawns(&effects, "web"), Some(1));
}

#[test]
fn a_required_service_that_has_ended_fails_the_boot() {
    let mut engine = built(
        vec![(
            "svc",
            supervised(|raw| raw.restart = RestartPolicy::No),
        )],
        vec![("boot", required(&["svc"]))],
    );
    engine.start(&id("boot"), 0).unwrap();
    let _ = executed(&mut engine, "svc", 1, 1);
    assert_eq!(engine.boot_failure(), None);
    let _ = exited(&mut engine, "svc", ExitOutcome::Success, 2);
    assert_eq!(observed(&engine, "svc"), ObservedState::Inactive);
    assert_eq!(engine.boot_failure(), Some("boot -> svc".to_owned()));
}

#[test]
fn a_failed_requirement_fails_what_waits_for_it() {
    let mut engine = built(
        vec![("db", simple()), ("web", requiring("db"))],
        vec![("boot", required(&["web"]))],
    );
    engine.start(&id("boot"), 0).unwrap();
    let _ = engine.handle(RuntimeEvent::SpawnFailed {
        service: id("db"),
        generation: 1,
        at_ms: 1,
    });
    assert_eq!(observed(&engine, "web"), ObservedState::Failed);
    assert_eq!(engine.status(&id("web")).unwrap().blocked_by, Some(id("db")));
    assert!(engine.boot_failure().is_some());
}

#[test]
fn a_loss_stops_dependants_from_the_outside_in() {
    let mut engine = RuntimeEngine::new(snapshot(
        vec![
            ("a", supervised(|raw| raw.restart = RestartPolicy::OnFailure)),
            ("bb", requiring("a")),
            ("ccc", requiring("bb")),
        ],
        &["ccc"],
    ));
    engine.start(&id("boot"), 0).unwrap();
    let _ = executed(&mut engine, "a", 1, 1);
    let _ = executed(&mut engine, "bb", 1, 2);
    let _ = executed(&mut engine, "ccc", 1, 3);

    let effects = exited(&mut engine, "a", ExitOutcome::ExitCode(1), 4);
    assert_eq!(terminated(&effects), vec!["ccc"]);
    assert_eq!(observed(&engine, "bb"), ObservedState::Active);
    assert_eq!(engine.status(&id("bb")).unwrap().blocked_by, Some(id("a")));
    let effects = exited(&mut engine, "ccc", ExitOutcome::Success, 5);
    assert_eq!(terminated(&effects), vec!["bb"]);
    let _ = exited(&mut engine, "bb", ExitOutcome::Success, 6);

    let effects = engine.handle(RuntimeEvent::Timer {
        service: id("a"),
        generation: 1,
        kind: TimerKind::Restart,
        at_ms: 200,
    });
    assert_eq!(spawns(&effects, "a"), Some(2));
    let effects = executed(&mut engine, "a", 2, 201);
    assert_eq!(spawns(&effects, "bb"), Some(2));
    assert_eq!(spawns(&effects, "ccc"), None);
    let effects = executed(&mut engine, "bb", 2, 202);
    assert_eq!(spawns(&effects, "ccc"), Some(2));
}

#[test]
fn members_that_a_group_only_wants_are_waited_for_and_may_fail() {
    let mut app = simple();
    app.dependencies.requires.push("net".into());
    let mut engine = built(
        vec![("app", app), ("dhcp", simple()), ("wifi", simple())],
        vec![
            ("boot", required(&["app"])),
            ("net", wanted(&["dhcp", "wifi"])),
        ],
    );
    let effects = engine.start(&id("boot"), 0).unwrap();
    assert_eq!(spawns(&effects, "app"), None);
    let _ = executed(&mut engine, "dhcp", 1, 1);
    assert_eq!(observed(&engine, "app"), ObservedState::Inactive);
    let effects = engine.handle(RuntimeEvent::SpawnFailed {
        service: id("wifi"),
        generation: 1,
        at_ms: 2,
    });
    assert_eq!(observed(&engine, "wifi"), ObservedState::Failed);
    assert_eq!(spawns(&effects, "app"), Some(1));
    let _ = executed(&mut engine, "app", 1, 3);
    assert_eq!(engine.boot_failure(), None);

    let effects = exited(&mut engine, "dhcp", ExitOutcome::ExitCode(1), 4);
    assert_eq!(terminated(&effects), Vec::<&str>::new());
    assert_eq!(observed(&engine, "app"), ObservedState::Active);
}

#[test]
fn paths_that_name_the_same_place_are_no_change() {
    let in_directory = |path: &str| {
        let mut raw = simple();
        raw.process.working_directory = path.to_owned();
        raw
    };
    let mut engine =
        RuntimeEngine::new(snapshot(vec![("svc", in_directory("/srv/data"))], &["svc"]));
    let same = snapshot(vec![("svc", in_directory("/srv//data/"))], &["svc"]);
    assert!(engine.plan_snapshot(&same).update.is_empty());
    let _ = engine.replace_snapshot(same).unwrap();
    let other = snapshot(vec![("svc", in_directory("/srv/data/.."))], &["svc"]);
    assert_eq!(engine.plan_snapshot(&other).update, vec!["svc".to_owned()]);
    assert!(engine.replace_snapshot(other).is_err());
}

#[test]
fn no_chain_takes_longer_than_the_critical_path() {
    let mut top = requiring("left");
    top.dependencies.after.push("right".into());
    let mut engine = RuntimeEngine::new(snapshot(
        vec![("left", simple()), ("right", simple()), ("top", top)],
        &["right", "top"],
    ));
    engine.start(&id("boot"), 0).unwrap();
    let _ = executed(&mut engine, "left", 1, 30);
    let _ = executed(&mut engine, "right", 1, 50);
    let _ = executed(&mut engine, "top", 1, 57);
    let path = find_critical_path(&engine);
    assert_eq!(path.duration_ms, 57);
    assert_eq!(path.services, vec![1, 2]);
}

#[test]
fn a_finished_oneshot_does_not_hold_up_the_stop_of_what_it_requires() {
    for name in ["early", "setup"] {
        let mut done = oneshot();
        done.dependencies.requires.push("net".into());
        let mut engine =
            RuntimeEngine::new(snapshot(vec![(name, done), ("net", simple())], &[name]));
        engine.start(&id("boot"), 0).unwrap();
        let _ = executed(&mut engine, "net", 1, 1);
        let _ = exited(&mut engine, name, ExitOutcome::Success, 2);
        assert_eq!(observed(&engine, name), ObservedState::Active);
        let effects = engine.stop(&id("net")).unwrap();
        assert_eq!(terminated(&effects), vec!["net"]);
        assert_eq!(observed(&engine, name), ObservedState::Inactive);
    }
}

#[test]
fn a_oneshot_between_two_processes_waits_for_the_outer_one() {
    let mut middle = oneshot();
    middle.dependencies.requires.push("inner".into());
    let mut engine = RuntimeEngine::new(snapshot(
        vec![
            ("inner", simple()),
            ("middle", middle),
            ("outer", requiring("middle")),
        ],
        &["outer"],
    ));
    engine.start(&id("boot"), 0).unwrap();
    let _ = executed(&mut engine, "inner", 1, 1);
    let _ = exited(&mut engine, "middle", ExitOutcome::Success, 2);
    let _ = executed(&mut engine, "outer", 1, 3);
    let effects = engine.stop(&id("inner")).unwrap();
    assert_eq!(terminated(&effects), vec!["outer"]);
    assert_eq!(observed(&engine, "middle"), ObservedState::Active);
    let effects = exited(&mut engine, "outer", ExitOutcome::Success, 4);
    assert_eq!(terminated(&effects), vec!["inner"]);
    assert_eq!(observed(&engine, "middle"), ObservedState::Inactive);
}

#[test]
fn a_finished_oneshot_fails_with_what_it_requires_and_runs_again() {
    let db = supervised(|raw| raw.restart = RestartPolicy::OnFailure);
    let mut setup = oneshot();
    setup.dependencies.requires.push("db".into());
    let mut engine = built(
        vec![("db", db), ("setup", setup)],
        vec![("boot", required(&["setup"]))],
    );
    engine.start(&id("boot"), 0).unwrap();
    let _ = executed(&mut engine, "db", 1, 1);
    let _ = exited(&mut engine, "setup", ExitOutcome::Success, 2);
    assert_eq!(observed(&engine, "setup"), ObservedState::Active);

    let effects = exited(&mut engine, "db", ExitOutcome::ExitCode(1), 3);
    assert_eq!(terminated(&effects), Vec::<&str>::new());
    assert_eq!(observed(&engine, "setup"), ObservedState::Failed);
    assert_eq!(engine.status(&id("setup")).unwrap().blocked_by, Some(id("db")));
    assert_eq!(engine.boot_failure(), None);

    let _ = engine.handle(RuntimeEvent::Timer {
        service: id("db"),
        generation: 1,
        kind: TimerKind::Restart,
        at_ms: 200,
    });
    let effects = executed(&mut engine, "db", 2, 201);
    assert_eq!(spawns(&effects, "setup"), Some(2));
    assert_eq!(engine.status(&id("setup")).unwrap().blocked_by, None);
}

#[test]
fn a_finished_oneshot_fails_when_what_it_requires_has_exited_for_good() {
    let mut setup = oneshot();
    setup.dependencies.requires.push("db".into());
    let mut engine = built(
        vec![("db", simple()), ("setup", setup)],
        vec![("boot", required(&["setup"]))],
    );
    engine.start(&id("boot"), 0).unwrap();
    let _ = executed(&mut engine, "db", 1, 1);
    let _ = exited(&mut engine, "setup", ExitOutcome::Success, 2);
    let _ = exited(&mut engine, "db", ExitOutcome::Success, 3);
    assert_eq!(observed(&engine, "db"), ObservedState::Inactive);
    assert_eq!(observed(&engine, "setup"), ObservedState::Failed);
    assert_eq!(engine.status(&id("setup")).unwrap().blocked_by, Some(id("db")));
    assert!(engine.boot_failure().is_some());
}

