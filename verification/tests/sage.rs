use loom::model::{
    IdentitySpec, ManagerScope, ProcessType, RawReadiness, RestartPolicy, ServiceDefinition,
};
use loom::sage::{checked_words, compile_service, RawDocument, RawService, SageError};

fn strings(list: &[&str]) -> Vec<String> {
    list.iter().map(|text| (*text).to_owned()).collect()
}

fn document(schema_version: u32, service: RawService) -> Result<RawDocument, String> {
    Ok(RawDocument {
        schema_version,
        service,
    })
}

fn worker() -> RawService {
    let mut service = RawService::new("worker");
    service.command = Some(strings(&["/usr/bin/worker", "--foreground"]));
    service
}

fn refused(field: &str, service: RawService) -> String {
    match compile_service(document(2, service)) {
        Err(SageError::Invalid {
            field: found,
            reason,
        }) => {
            assert_eq!(found, field);
            reason
        }
        _ => panic!("the field is refused"),
    }
}

#[test]
fn compiles_existing_v1_without_a_shell() {
    let mut service = RawService::new("dbus");
    service.description = "D-Bus".into();
    service.exec_start = Some("/usr/bin/dbus-daemon --system --nofork".into());
    service.restart = Some("on-failure".into());
    service.after = strings(&["localmount"]);
    let compiled = compile_service(document(1, service)).unwrap();
    let native = ServiceDefinition::parse(
        compiled.id,
        Ok(compiled.document.definition()),
        ManagerScope::System,
    )
    .unwrap();
    assert_eq!(
        native.process.command,
        ["/usr/bin/dbus-daemon", "--system", "--nofork"]
    );
}

#[test]
fn compiles_v2_argv_and_actions() {
    let mut service = worker();
    service.stop_command = Some(strings(&["/usr/bin/workerctl", "stop"]));
    service.readiness = Some("notify".into());
    service.requires = strings(&["db"]);
    service.environment.insert("MODE", "production");
    let compiled = compile_service(document(2, service)).unwrap();
    assert_eq!(compiled.document.readiness, RawReadiness::Notify);
    assert_eq!(
        compiled.document.actions.stop,
        Some(strings(&["/usr/bin/workerctl", "stop"]))
    );
    assert_eq!(compiled.document.environment.value(0), "production");
    assert_eq!(compiled.document.dependencies.requires, strings(&["db"]));
    let written = compiled.written(Ok("readiness = \"notify\"\n".into())).unwrap();
    assert_eq!(written.id.as_str(), "worker");
    assert!(written.toml.contains("readiness = \"notify\""));
}

#[test]
fn rejects_forking_and_unresolved_runtime() {
    let mut forking = RawService::new("bad");
    forking.command = Some(strings(&["/usr/bin/bad"]));
    forking.process_type = Some("forking".into());
    let mut runtime = RawService::new("bad");
    runtime.command = Some(strings(&["/usr/bin/bad"]));
    runtime.runtime = Some("runtime/java:21".into());
    assert!(compile_service(document(2, forking)).is_err());
    assert!(compile_service(document(2, runtime)).is_err());
}

#[test]
fn quotes_in_legacy_commands_are_words_not_scripts() {
    let mut service = RawService::new("quoted");
    service.exec_start = Some("/usr/bin/run 'one word' \"two words\" a\\ b | cat".into());
    let compiled = compile_service(document(1, service)).unwrap();
    assert_eq!(
        compiled.document.command,
        strings(&["/usr/bin/run", "one word", "two words", "a b", "|", "cat"])
    );
}

#[test]
fn unbalanced_quotes_are_refused() {
    let mut service = RawService::new("quoted");
    service.exec_start = Some("/usr/bin/run 'open".into());
    assert!(matches!(
        compile_service(document(1, service)),
        Err(SageError::Invalid {
            field: "service.exec_start",
            ..
        })
    ));
    assert!(checked_words("service.exec_start", None).is_err());
    assert_eq!(
        checked_words("service.exec_start", Some(strings(&["/bin/true"]))).unwrap(),
        strings(&["/bin/true"])
    );
}

#[test]
fn keeps_identity_type_and_restart_policy() {
    let mut service = worker();
    service.user = Some(IdentitySpec::Name("alice".into()));
    service.group = Some(IdentitySpec::Id(100));
    service.process_type = Some("oneshot".into());
    service.restart = Some("no".into());
    service.working_directory = Some("/srv".into());
    let compiled = compile_service(document(2, service)).unwrap();
    assert_eq!(compiled.document.kind, ProcessType::Oneshot);
    assert_eq!(compiled.document.restart, RestartPolicy::No);
    assert_eq!(compiled.document.user, Some(IdentitySpec::Name("alice".into())));
    assert_eq!(compiled.document.group, Some(IdentitySpec::Id(100)));
    assert_eq!(compiled.document.working_directory, Some("/srv".into()));
}

#[test]
fn unknown_words_are_named_in_the_refusal() {
    let mut service = worker();
    service.readiness = Some("later\n".into());
    assert_eq!(
        refused("service.readiness", service),
        "unsupported readiness \"later\\n\""
    );
}

#[test]
fn refuses_fields_without_a_meaning() {
    let mut before = worker();
    before.before = strings(&["db"]);
    assert_eq!(refused("service.before", before), "Loom uses after edges only");
    let mut pid_file = worker();
    pid_file.pid_file = Some("/run/worker.pid".into());
    refused("service.pid_file", pid_file);
}

#[test]
fn refuses_unknown_schemas_names_and_texts() {
    assert!(matches!(
        compile_service(document(3, worker())),
        Err(SageError::Schema(3))
    ));
    let mut unnamed = worker();
    unnamed.name = "not a name".into();
    assert!(matches!(
        compile_service(document(2, unnamed)),
        Err(SageError::Generated(_))
    ));
    assert!(matches!(
        compile_service(Err("expected a table".into())),
        Err(SageError::Parse(message)) if message == "expected a table"
    ));
    let compiled = compile_service(document(2, worker())).unwrap();
    assert!(matches!(
        compiled.written(Err("no text".into())),
        Err(SageError::Serialize(message)) if message == "no text"
    ));
}
