use loom::environment::Environment;
use loom::model::{
    ConfigError, IdentitySelection, IdentitySpec, ManagerScope, OutputTarget, ProcessType,
    RawDependencies, RawIo, RawOutput, RawProcess, RawReadiness, RawServiceDefinition, Readiness,
    ServiceDefinition, ServiceId,
};

fn id(name: &str) -> ServiceId {
    ServiceId::new(name).unwrap()
}

fn strings(list: &[&str]) -> Vec<String> {
    list.iter().map(|text| (*text).to_owned()).collect()
}

fn with_command(command: &[&str]) -> RawServiceDefinition {
    RawServiceDefinition::new(RawProcess::new(strings(command)))
}

fn minimal() -> RawServiceDefinition {
    with_command(&["/usr/bin/example", "--foreground"])
}

fn parse(raw: RawServiceDefinition) -> Result<ServiceDefinition, ConfigError> {
    ServiceDefinition::parse(id("example"), Ok(raw), ManagerScope::System)
}

#[test]
fn parses_minimal_system_service_with_deterministic_defaults() {
    let service =
        ServiceDefinition::parse(id("example"), Ok(minimal()), ManagerScope::System).unwrap();

    assert_eq!(service.process.kind, ProcessType::Simple);
    assert_eq!(service.process.readiness, Readiness::Exec);
    assert_eq!(service.process.working_directory, "/");
    assert_eq!(service.process.umask, 0o022);
    assert_eq!(
        service.process.user,
        IdentitySelection::Explicit(IdentitySpec::Name("root".into()))
    );
    assert_eq!(service.supervision.start_timeout_ms, 30_000);
    assert_eq!(service.io.stdout, OutputTarget::Console);
}

#[test]
fn user_service_defaults_to_manager_identity() {
    let service =
        ServiceDefinition::parse(id("example"), Ok(minimal()), ManagerScope::User).unwrap();

    assert_eq!(service.process.user, IdentitySelection::Manager);
    assert_eq!(service.process.group, IdentitySelection::Manager);
}

#[test]
fn rejects_implicit_shell_command() {
    let error = ServiceDefinition::parse(
        id("example"),
        Ok(with_command(&["echo hello | cat"])),
        ManagerScope::System,
    )
    .unwrap_err();

    assert!(error.message().contains("absolute"));
}

#[test]
fn converts_oneshot_readiness_to_completion() {
    let mut raw = with_command(&["/usr/bin/mount", "-a"]);
    raw.process.kind = ProcessType::Oneshot;
    let service =
        ServiceDefinition::parse(id("localmount"), Ok(raw), ManagerScope::System).unwrap();

    assert_eq!(service.process.readiness, Readiness::Completion);
}

#[test]
fn rejects_duplicate_and_self_dependencies() {
    let mut duplicate = with_command(&["/usr/bin/example"]);
    duplicate.dependencies = RawDependencies {
        requires: strings(&["db", "db"]),
        ..RawDependencies::default()
    };
    let mut self_dependency = with_command(&["/usr/bin/example"]);
    self_dependency.dependencies = RawDependencies {
        after: strings(&["example"]),
        ..RawDependencies::default()
    };

    for raw in [duplicate, self_dependency] {
        assert!(
            ServiceDefinition::parse(id("example"), Ok(raw), ManagerScope::System).is_err()
        );
    }
}

#[test]
fn parses_structured_output_targets() {
    let mut raw = with_command(&["/usr/bin/example"]);
    raw.io = RawIo {
        stdout: RawOutput::Append("/var/log/example.log".into()),
        stderr: RawOutput::Socket("/run/logger.sock".into()),
    };
    let service =
        ServiceDefinition::parse(id("example"), Ok(raw), ManagerScope::System).unwrap();

    assert_eq!(
        service.io.stdout,
        OutputTarget::Append("/var/log/example.log".into())
    );
    assert_eq!(
        service.io.stderr,
        OutputTarget::Socket("/run/logger.sock".into())
    );
}

#[test]
fn requires_absolute_executable_before_spawn() {
    assert!(ServiceDefinition::parse(
        id("test"),
        Ok(with_command(&["true"])),
        ManagerScope::User
    )
    .is_err());
    assert!(std::path::Path::new("/bin/true").is_absolute());
}

#[test]
fn unreadable_documents_keep_the_readers_message() {
    let error = ServiceDefinition::parse(
        id("example"),
        Err("unknown field `magic`".into()),
        ManagerScope::System,
    )
    .unwrap_err();
    assert!(error.message().contains("unknown field"));
}

#[test]
fn identifiers_have_a_bounded_plain_grammar() {
    for name in ["a", "9p", "getty@tty1", "a.b_c-d"] {
        assert_eq!(id(name).as_str(), name);
    }
    for name in ["", "-a", ".a", "a b", "a/b", "\u{e9}"] {
        assert!(ServiceId::new(name).is_err());
    }
    assert!(ServiceId::new(&"a".repeat(128)).is_ok());
    assert!(ServiceId::new(&"a".repeat(129)).is_err());
}

#[test]
fn file_names_give_identifiers() {
    assert_eq!(
        ServiceId::from_path("/etc/loom/services/web.toml")
            .unwrap()
            .as_str(),
        "web"
    );
    assert!(ServiceId::from_path("/etc/loom/services/bad name.toml").is_err());
}

#[test]
fn notify_readiness_is_for_simple_services() {
    let mut raw = minimal();
    raw.process.readiness = RawReadiness::Notify;
    assert_eq!(parse(raw).unwrap().process.readiness, Readiness::Notify);
    let mut oneshot = minimal();
    oneshot.process.kind = ProcessType::Oneshot;
    oneshot.process.readiness = RawReadiness::Notify;
    assert!(parse(oneshot).is_err());
}

#[test]
fn rejects_bad_environment_umask_and_directories() {
    let mut environment = Environment::new();
    environment.insert("BAD=KEY", "value");
    let mut raw = minimal();
    raw.process.environment = environment;
    assert!(parse(raw).is_err());

    let mut raw = minimal();
    raw.process.umask = 0o1000;
    assert!(parse(raw).is_err());

    let mut raw = minimal();
    raw.process.working_directory = "tmp".into();
    assert!(parse(raw).is_err());

    let mut raw = minimal();
    raw.actions.reload = Some(strings(&["reload"]));
    assert!(parse(raw).is_err());

    let mut raw = minimal();
    raw.schema_version = 7;
    assert!(matches!(
        parse(raw),
        Err(ConfigError::UnsupportedSchema { .. })
    ));
}
