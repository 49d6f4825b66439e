use std::sync::Arc;

use loom::config::{ConfigSnapshot, RawManagerConfig, Source};
use loom::dispatch::{
    configuration_reply, dispatch_configuration, dispatch_lifecycle, initial_snapshot, install,
    pending_kind, restore, serve_apply, serve_dry_run, serve_enabled, serve_reload,
    validate_accounts, ConfigurationStep, Wait, Work,
};
use loom::identity::AccountDatabase;
use loom::loader::LoadError;
use loom::manager::{ManagerError, ManagerMode, ShutdownAction};
use loom::model::{
    IdentitySpec, ManagerScope, RawDependencies, RawProcess, RawServiceDefinition,
    ResolvedIdentity, ServiceId,
};
use loom::pending::{
    ends_rescue, expire, pending_result, time_after, PendingKind, PendingRequest,
};
use loom::protocol::{MessageKind, Operation, Packet, StatusCode};
use loom::query::dispatch_query;
use loom::report::{query_report, Report};
use loom::request::{
    is_mutating, payload_target, route, screen, Admission, RequestContext, Route,
};
use loom::response::{may_queue, response_packets};
use loom::runtime::{
    ExitOutcome, RuntimeEffect, RuntimeEngine, RuntimeError, RuntimeEvent,
};

fn id(name: &str) -> ServiceId {
    ServiceId::new(name).unwrap()
}

fn simple() -> RawServiceDefinition {
    RawServiceDefinition::new(RawProcess::new(vec!["/usr/bin/true".to_owned()]))
}

fn requiring(name: &str) -> RawServiceDefinition {
    let mut raw = simple();
    raw.dependencies.requires.push(name.to_owned());
    raw
}

fn snapshot(services: Vec<(&str, RawServiceDefinition)>, wants: &[&str]) -> ConfigSnapshot {
    let mut manager = RawManagerConfig::new("boot");
    let lists = RawDependencies {
        wants: wants.iter().map(|name| (*name).to_owned()).collect(),
        ..RawDependencies::default()
    };
    manager.groups.push(("boot".into(), lists));
    let sources: Vec<Source> = services
        .into_iter()
        .map(|(name, raw)| (id(name), Ok(raw)))
        .collect();
    ConfigSnapshot::build(Ok(manager), sources, ManagerScope::System).unwrap()
}

fn web_and_db() -> RuntimeEngine {
    RuntimeEngine::new(Arc::new(snapshot(
        vec![("db", simple()), ("web", requiring("db"))],
        &["web"],
    )))
}

fn executed(engine: &mut RuntimeEngine, name: &str, at_ms: u64) {
    let generation = engine.status(&id(name)).unwrap().generation;
    let _ = engine.handle(RuntimeEvent::ExecSucceeded {
        service: id(name),
        generation,
        at_ms,
    });
}

fn running() -> RuntimeEngine {
    let mut engine = web_and_db();
    engine.start(&id("boot"), 10).unwrap();
    executed(&mut engine, "db", 15);
    executed(&mut engine, "web", 22);
    engine
}

fn root() -> ResolvedIdentity {
    ResolvedIdentity {
        uid: 0,
        gid: 0,
        supplementary_groups: vec![],
    }
}

fn root_account() -> AccountDatabase {
    AccountDatabase::parse("root:x:0:0:root:/root:/bin/sh\n", "root:x:0:\n").unwrap()
}

fn of_nobody_known() -> RawServiceDefinition {
    let mut raw = simple();
    raw.process.user = Some(IdentitySpec::Name("does-not-exist".into()));
    raw
}

fn context() -> RequestContext {
    RequestContext {
        mode: ManagerMode::System,
        manager_uid: 0,
        client_uid: 0,
        shutting_down: false,
        apply_pending: false,
        request_pending: false,
    }
}

fn request(operation: Operation, payload: &[u8]) -> Vec<u8> {
    Packet {
        kind: MessageKind::Request,
        request_id: 5,
        operation,
        status: StatusCode::Success,
        more: false,
        payload: payload.to_vec(),
    }
    .encode()
    .unwrap()
}

fn refusal(operation: Operation, context: RequestContext) -> (StatusCode, String) {
    match screen(&request(operation, b"web"), context) {
        Admission::Refused { reply, .. } => {
            assert_eq!(reply.request_id, 5);
            (reply.status, reply.message)
        }
        _ => panic!("the request is refused"),
    }
}

#[test]
fn refused_requests_say_why() {
    let shutting_down = RequestContext {
        shutting_down: true,
        ..context()
    };
    assert_eq!(
        refusal(Operation::Start, shutting_down),
        (StatusCode::Conflict, "shutdown in progress".to_owned())
    );
    let applying = RequestContext {
        apply_pending: true,
        ..context()
    };
    assert_eq!(
        refusal(Operation::ApplyDryRun, applying),
        (StatusCode::Conflict, "apply in progress".to_owned())
    );
    let waiting = RequestContext {
        request_pending: true,
        ..context()
    };
    assert_eq!(
        refusal(Operation::Status, waiting),
        (StatusCode::Conflict, "one request is already pending".to_owned())
    );
    let stranger = RequestContext {
        client_uid: 1000,
        ..context()
    };
    assert_eq!(
        refusal(Operation::Stop, stranger),
        (
            StatusCode::PermissionDenied,
            "operation requires manager owner".to_owned()
        )
    );
    assert!(matches!(
        screen(&request(Operation::Status, b""), stranger),
        Admission::Accepted { .. }
    ));
}

#[test]
fn packets_that_are_no_requests_are_answered() {
    match screen(&[0, 1, 2], context()) {
        Admission::Unreadable(reply) => {
            assert_eq!(reply.request_id, 0);
            assert_eq!(reply.status, StatusCode::InvalidRequest);
        }
        _ => panic!("the packet is unreadable"),
    }
    let mut response = request(Operation::Status, b"");
    response[6] = 2;
    match screen(&response, context()) {
        Admission::Unreadable(reply) => assert_eq!(reply.message, "expected request packet"),
        _ => panic!("a response is no request"),
    }
}

#[test]
fn targets_are_trimmed_and_checked() {
    assert_eq!(payload_target(&b" web \n".to_vec()).unwrap().as_str(), "web");
    match payload_target(&vec![b'a', 0xff]) {
        Err(ManagerError::InvalidTarget(target)) => assert_eq!(target, "a\u{fffd}"),
        _ => panic!("bytes that are no UTF-8 are refused"),
    }
    let error = payload_target(&b"a b".to_vec()).unwrap_err();
    assert_eq!(error.message(), "invalid service target \"a b\"");
    assert_eq!(error.status(), StatusCode::NotFound);
}

#[test]
fn operations_have_their_parts_of_the_manager() {
    assert_eq!(route(Operation::Start, ManagerMode::User), Route::Lifecycle);
    assert_eq!(route(Operation::Timings, ManagerMode::User), Route::Query);
    assert_eq!(route(Operation::Apply, ManagerMode::User), Route::Configuration);
    assert_eq!(
        route(Operation::Reboot, ManagerMode::System),
        Route::Shutdown(ShutdownAction::Reboot)
    );
    assert_eq!(route(Operation::Reboot, ManagerMode::User), Route::Unsupported);
    assert!(is_mutating(Operation::Apply));
    assert!(!is_mutating(Operation::ApplyDryRun));
}

#[test]
fn starting_waits_for_everything_that_is_activated() {
    let mut engine = web_and_db();
    let work = dispatch_lifecycle(&mut engine, Operation::Start, &b"web".to_vec(), 10).unwrap();
    let wait = match work {
        Work::Effects { effects, wait } => {
            assert!(matches!(effects[0], RuntimeEffect::Spawn { .. }));
            wait
        }
        Work::ReloadAction(_) => panic!("no helper is run"),
    };
    assert_eq!(
        wait,
        Wait::Started {
            required: vec![id("db"), id("web")],
            wanted: vec![]
        }
    );
    let kind = pending_kind(&engine, wait);
    assert_eq!(pending_result(&engine, &kind), None);
    executed(&mut engine, "db", 11);
    assert_eq!(pending_result(&engine, &kind), None);
    executed(&mut engine, "web", 12);
    assert_eq!(
        pending_result(&engine, &kind),
        Some((StatusCode::Success, "active"))
    );
}

#[test]
fn stopping_waits_for_everything_that_should_not_run() {
    let mut engine = running();
    let work = dispatch_lifecycle(&mut engine, Operation::Stop, &b"db".to_vec(), 30).unwrap();
    let wait = match work {
        Work::Effects { wait, .. } => wait,
        Work::ReloadAction(_) => panic!("no helper is run"),
    };
    let kind = pending_kind(&engine, wait);
    assert_eq!(kind, PendingKind::Stop(vec![id("db"), id("web")]));
    for name in ["web", "db"] {
        assert_eq!(pending_result(&engine, &kind), None);
        let generation = engine.status(&id(name)).unwrap().generation;
        let _ = engine.handle(RuntimeEvent::Exited {
            service: id(name),
            generation,
            outcome: ExitOutcome::Success,
            at_ms: 31,
        });
    }
    assert_eq!(
        pending_result(&engine, &kind),
        Some((StatusCode::Success, "inactive"))
    );
}

#[test]
fn restarts_wait_for_a_later_attempt() {
    let mut engine = running();
    let work = dispatch_lifecycle(&mut engine, Operation::Restart, &b"web".to_vec(), 30).unwrap();
    let kind = match work {
        Work::Effects { wait, .. } => pending_kind(&engine, wait),
        Work::ReloadAction(_) => panic!("no helper is run"),
    };
    assert_eq!(pending_result(&engine, &kind), None);
    let _ = engine.handle(RuntimeEvent::Exited {
        service: id("web"),
        generation: 1,
        outcome: ExitOutcome::Success,
        at_ms: 31,
    });
    executed(&mut engine, "web", 32);
    assert_eq!(
        pending_result(&engine, &kind),
        Some((StatusCode::Success, "restarted"))
    );
}

#[test]
fn failed_starts_are_reported() {
    let mut engine = web_and_db();
    engine.start(&id("db"), 1).unwrap();
    let _ = engine.handle(RuntimeEvent::SpawnFailed {
        service: id("db"),
        generation: 1,
        at_ms: 2,
    });
    assert_eq!(
        pending_result(
            &engine,
            &PendingKind::Start {
                required: vec![id("db")],
                wanted: vec![]
            }
        ),
        Some((StatusCode::ServiceFailure, "service failed"))
    );
    assert_eq!(
        pending_result(
            &engine,
            &PendingKind::Restart {
                service: id("db"),
                previous_generation: 0
            }
        ),
        Some((StatusCode::ServiceFailure, "restart failed"))
    );
}

#[test]
fn unknown_targets_leave_the_engine_alone() {
    let mut engine = web_and_db();
    for operation in [Operation::Start, Operation::StopForce, Operation::Restart] {
        match dispatch_lifecycle(&mut engine, operation, &b"gone".to_vec(), 1) {
            Err(ManagerError::Runtime(RuntimeError::UnknownTarget(name))) => {
                assert_eq!(name.as_str(), "gone")
            }
            _ => panic!("the target is unknown"),
        }
    }
    assert_eq!(
        dispatch_lifecycle(&mut engine, Operation::ReloadService, &b"web".to_vec(), 1).unwrap(),
        Work::ReloadAction(id("web"))
    );
}

#[test]
fn helpers_answer_the_requests_that_wait_for_them() {
    let engine = web_and_db();
    let mut waiting = PendingRequest::new(
        3,
        Operation::ReloadService,
        PendingKind::Action {
            id: 20,
            result: None,
        },
        100,
    );
    assert_eq!(waiting.deadline_ms, 30_100);
    waiting.note_action(21, StatusCode::Success);
    assert_eq!(pending_result(&engine, &waiting.kind), None);
    waiting.note_action(20, StatusCode::Timeout);
    assert_eq!(
        pending_result(&engine, &waiting.kind),
        Some((StatusCode::Timeout, "action failed"))
    );
    let mut slot = Some(waiting);
    assert_eq!(expire(&mut slot, 4), None);
    assert_eq!(expire(&mut slot, 3), Some(Operation::ReloadService));
    assert_eq!(slot, None);
    assert_eq!(time_after(u64::MAX, 1), u64::MAX);
    assert!(ends_rescue(Operation::Apply, StatusCode::Success));
    assert!(!ends_rescue(Operation::Apply, StatusCode::Timeout));
}

#[test]
fn enabling_is_for_known_services() {
    let mut engine = web_and_db();
    let step = dispatch_configuration(&mut engine, Operation::Enable, &b"now\ndb".to_vec()).unwrap();
    assert_eq!(
        step,
        ConfigurationStep::Enable {
            service: id("db"),
            enabled: true,
            now: true
        }
    );
    assert_eq!(configuration_reply(&step), Some("enabled"));
    assert!(dispatch_configuration(&mut engine, Operation::Enable, &b"gone".to_vec()).is_err());
    assert!(dispatch_configuration(&mut engine, Operation::Disable, &b"gone".to_vec()).is_ok());
    match serve_enabled(&mut engine, &id("db"), true, 5).unwrap() {
        Work::Effects { wait, .. } => assert_eq!(
            wait,
            Wait::Started {
                required: vec![id("db")],
                wanted: vec![]
            }
        ),
        Work::ReloadAction(_) => panic!("no helper is run"),
    }
    match serve_enabled(&mut engine, &id("db"), false, 6).unwrap() {
        Work::Effects { wait, .. } => assert_eq!(wait, Wait::Stopped),
        Work::ReloadAction(_) => panic!("no helper is run"),
    }
}

#[test]
fn a_configuration_that_cannot_be_written_is_taken_back() {
    let mut engine = running();
    let edited = snapshot(vec![("db", simple()), ("web", requiring("db"))], &[]);
    let previous = install(&mut engine, edited).unwrap();
    assert!(!engine.snapshot().is_enabled(&id("web")));
    restore(&mut engine, previous);
    assert!(engine.snapshot().is_enabled(&id("web")));
    let fewer = snapshot(vec![("db", simple())], &[]);
    assert!(install(&mut engine, fewer).is_err());
}

#[test]
fn applying_waits_for_the_new_default_group() {
    let mut engine = running();
    let new = snapshot(vec![("db", simple()), ("cache", simple())], &["cache"]);
    let work = serve_apply(
        &mut engine,
        &root_account(),
        new,
        ManagerMode::System,
        &root(),
        40,
    );
    let kind = match work.unwrap() {
        Work::Effects { wait, .. } => {
            assert_eq!(wait, Wait::Applied(vec![id("cache")]));
            pending_kind(&engine, wait)
        }
        Work::ReloadAction(_) => panic!("no helper is run"),
    };
    assert_eq!(pending_result(&engine, &kind), None);
    assert!(engine.apply_pending());
    let _ = engine.handle(RuntimeEvent::Exited {
        service: id("web"),
        generation: 1,
        outcome: ExitOutcome::Success,
        at_ms: 41,
    });
    let _ = engine.handle(RuntimeEvent::Exited {
        service: id("db"),
        generation: 1,
        outcome: ExitOutcome::Success,
        at_ms: 42,
    });
    executed(&mut engine, "cache", 43);
    assert_eq!(
        pending_result(&engine, &kind),
        Some((StatusCode::Success, "active"))
    );
}

#[test]
fn failures_are_cleared_on_request() {
    let mut engine = web_and_db();
    let step =
        dispatch_configuration(&mut engine, Operation::ResetFailed, &b"db".to_vec()).unwrap();
    assert_eq!(configuration_reply(&step), Some("reset"));
    let step = dispatch_configuration(&mut engine, Operation::ApplyDryRun, &vec![]).unwrap();
    assert_eq!(configuration_reply(&step), None);
}

#[test]
fn accounts_of_all_services_are_checked() {
    let accounts = root_account();
    let good = snapshot(vec![("db", simple())], &[]);
    assert!(validate_accounts(&accounts, &good, ManagerMode::System, &root()).is_ok());
    let bad = snapshot(vec![("db", of_nobody_known())], &[]);
    let error = validate_accounts(&accounts, &bad, ManagerMode::System, &root()).unwrap_err();
    assert_eq!(error.message(), "unknown user does-not-exist");
    assert_eq!(error.status(), StatusCode::InvalidRequest);
}

#[test]
fn an_unknown_account_refuses_a_configuration_whole() {
    let accounts = root_account();
    let mut engine = running();
    let bad = || snapshot(vec![("db", of_nobody_known())], &[]);
    let refused = "unknown user does-not-exist";

    let plan = serve_dry_run(&engine, &accounts, &bad(), ManagerMode::System, &root());
    assert_eq!(plan.unwrap_err().message(), refused);
    let reload = serve_reload(&mut engine, &accounts, bad(), ManagerMode::System, &root());
    assert_eq!(reload.unwrap_err().message(), refused);
    let apply = serve_apply(&mut engine, &accounts, bad(), ManagerMode::System, &root(), 40);
    assert_eq!(apply.unwrap_err().message(), refused);
    assert!(!engine.apply_pending());
    assert!(engine.snapshot().is_enabled(&id("web")));

    let (used, reason) =
        initial_snapshot(ManagerMode::System, Ok(bad()), &accounts, &root()).unwrap();
    assert!(used.services().is_empty());
    assert_eq!(reason.as_deref(), Some(refused));
}

#[test]
fn dry_runs_plan_and_reloads_keep_definitions() {
    let accounts = root_account();
    let mut engine = running();
    let fewer = || snapshot(vec![("db", simple())], &["db"]);
    let plan = serve_dry_run(&engine, &accounts, &fewer(), ManagerMode::System, &root());
    assert_eq!(plan.unwrap().remove, vec!["web".to_owned()]);
    let refused = serve_reload(&mut engine, &accounts, fewer(), ManagerMode::System, &root());
    assert!(matches!(
        refused,
        Err(ManagerError::Runtime(RuntimeError::DefinitionChange))
    ));
    let disabled = snapshot(vec![("db", simple()), ("web", requiring("db"))], &[]);
    serve_reload(&mut engine, &accounts, disabled, ManagerMode::System, &root()).unwrap();
    assert!(!engine.snapshot().is_enabled(&id("web")));
}

#[test]
fn a_group_comes_up_without_the_services_that_it_only_wants() {
    let mut engine = RuntimeEngine::new(Arc::new(snapshot(
        vec![("cache", simple()), ("web", simple())],
        &["cache", "web"],
    )));
    let work = dispatch_lifecycle(&mut engine, Operation::Start, &b"boot".to_vec(), 1).unwrap();
    let wait = match work {
        Work::Effects { wait, .. } => wait,
        Work::ReloadAction(_) => panic!("no helper is run"),
    };
    assert_eq!(
        wait,
        Wait::Started {
            required: vec![],
            wanted: vec![id("cache"), id("web")]
        }
    );
    let kind = pending_kind(&engine, wait);
    let _ = engine.handle(RuntimeEvent::SpawnFailed {
        service: id("cache"),
        generation: 1,
        at_ms: 2,
    });
    assert_eq!(pending_result(&engine, &kind), None);
    executed(&mut engine, "web", 3);
    assert_eq!(
        pending_result(&engine, &kind),
        Some((StatusCode::Success, "active"))
    );
}

#[test]
fn user_managers_serve_their_owner_alone() {
    let owner = RequestContext {
        mode: ManagerMode::User,
        manager_uid: 1000,
        client_uid: 1000,
        ..context()
    };
    assert!(matches!(
        screen(&request(Operation::Status, b""), owner),
        Admission::Accepted { .. }
    ));
    for client_uid in [0, 1001] {
        for operation in [Operation::Status, Operation::Timings, Operation::Stop] {
            let stranger = RequestContext {
                client_uid,
                ..owner
            };
            assert_eq!(
                refusal(operation, stranger),
                (
                    StatusCode::PermissionDenied,
                    "operation requires manager owner".to_owned()
                )
            );
        }
    }
}

#[test]
fn a_system_manager_without_configuration_begins_in_rescue() {
    let missing = LoadError::MissingManager("/etc/loom/loom.toml".into());
    let (snapshot, reason) =
        initial_snapshot(ManagerMode::System, Err(missing), &root_account(), &root()).unwrap();
    assert!(snapshot.services().is_empty());
    assert_eq!(snapshot.default_group().as_str(), "boot");
    assert_eq!(*snapshot.rescue_command(), vec!["/bin/sh"]);
    assert_eq!(
        reason.unwrap(),
        "missing manager configuration /etc/loom/loom.toml"
    );
    let missing = LoadError::MissingManager("/c/loom/loom.toml".into());
    let refused = initial_snapshot(ManagerMode::User, Err(missing), &root_account(), &root());
    assert!(refused.is_err());
}

#[test]
fn questions_are_answered_in_words() {
    let engine = running();
    let ask = |operation, payload: &[u8]| {
        dispatch_query(&engine, &None, operation, &payload.to_vec()).unwrap()
    };
    assert_eq!(
        ask(Operation::Status, b"").1,
        "db\tactive\tactive\t1\nweb\tactive\tactive\t1\n"
    );
    assert_eq!(ask(Operation::Status, b"web").1, "web\tactive\tactive\t1\n");
    assert_eq!(
        ask(Operation::IsActive, b"web"),
        (StatusCode::Success, "active".to_owned())
    );
    assert_eq!(
        ask(Operation::IsEnabled, b"db"),
        (StatusCode::ServiceFailure, "disabled".to_owned())
    );
    assert_eq!(
        ask(Operation::Dependencies, b"web").1,
        "requires=db\nwants=\nafter=\nconflicts=\n"
    );
    assert_eq!(
        ask(Operation::CriticalPath, b"").1,
        "duration_ms=12\nservices=db -> web\n"
    );
    assert!(ask(Operation::Timings, b"").1.contains("\nweb\t"));
    let rescue = Some("no disk".to_owned());
    assert!(dispatch_query(&engine, &rescue, Operation::Status, &vec![])
        .unwrap()
        .1
        .starts_with("mode=rescue\nreason=no disk\n"));
}

#[test]
fn questions_are_answered_in_reports() {
    let engine = running();
    let report = query_report(
        &engine,
        &None,
        77,
        Operation::Status,
        &vec![],
        StatusCode::Success,
    );
    assert_eq!(report.schema_version, 1);
    assert_eq!(report.status, 0);
    assert_eq!(report.mode, Some("running"));
    assert_eq!(report.manager_pid, Some(77));
    let services = report.services.unwrap();
    assert_eq!(services[1].name, "web");
    assert!(services[1].enabled);
    assert_eq!(services[1].ready_ms, Some(22));
    let report = query_report(
        &engine,
        &None,
        77,
        Operation::CriticalPath,
        &vec![],
        StatusCode::Success,
    );
    let path = report.critical_path.unwrap();
    assert_eq!(path.duration_ms, 12);
    assert_eq!(path.services, vec!["db", "web"]);
    let report = Report::of_message(StatusCode::Conflict, "apply in progress".into());
    assert_eq!(report.message.unwrap(), "apply in progress");
}

#[test]
fn long_answers_are_sent_in_parts() {
    let payload: Vec<u8> = (0..200_000u32).map(|n| (n % 251) as u8).collect();
    let packets = response_packets(9, Operation::Status, StatusCode::Success, &payload);
    assert_eq!(packets.len(), 4);
    let mut gathered = Vec::new();
    for (index, packet) in packets.iter().enumerate() {
        let packet = Packet::decode(packet).unwrap();
        assert_eq!(packet.more, index < 3);
        assert_eq!(packet.request_id, 9);
        gathered.extend(packet.payload);
    }
    assert_eq!(gathered, payload);
    assert_eq!(
        response_packets(9, Operation::Status, StatusCode::Success, &vec![]).len(),
        1
    );
    assert!(may_queue(0, 8 * 1024 * 1024));
    assert!(!may_queue(0, 8 * 1024 * 1024 + 1));
    assert!(!may_queue(64 * 1024 * 1024, 1));
}
