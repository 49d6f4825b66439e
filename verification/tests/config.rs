use loom::catalog::ConfigWarning;
use loom::config::{ConfigSnapshot, RawManagerConfig, Source};
use loom::model::{
    ConfigError, ManagerScope, RawDependencies, RawProcess, RawServiceDefinition, ServiceId,
};

fn id(name: &str) -> ServiceId {
    ServiceId::new(name).unwrap()
}

fn names(list: &[&str]) -> Vec<String> {
    list.iter().map(|name| (*name).to_owned()).collect()
}

fn service(dependencies: RawDependencies) -> RawServiceDefinition {
    let mut raw = RawServiceDefinition::new(RawProcess::new(names(&["/usr/bin/true"])));
    raw.dependencies = dependencies;
    raw
}

fn wants(list: &[&str]) -> RawDependencies {
    RawDependencies {
        wants: names(list),
        ..RawDependencies::default()
    }
}

fn manager(groups: Vec<(&str, RawDependencies)>) -> RawManagerConfig {
    let mut raw = RawManagerConfig::new("boot");
    raw.groups = groups
        .into_iter()
        .map(|(name, lists)| (name.to_owned(), lists))
        .collect();
    raw
}

fn build(
    manager: RawManagerConfig,
    services: Vec<(&str, RawServiceDefinition)>,
) -> Result<ConfigSnapshot, ConfigError> {
    let sources: Vec<Source> = services
        .into_iter()
        .map(|(name, raw)| (id(name), Ok(raw)))
        .collect();
    ConfigSnapshot::build(Ok(manager), sources, ManagerScope::System)
}

#[test]
fn builds_snapshot_and_activation_closure() {
    let web = service(RawDependencies {
        requires: names(&["db"]),
        ..RawDependencies::default()
    });
    let db = service(RawDependencies::default());
    let snapshot = build(
        manager(vec![("boot", wants(&["web"]))]),
        vec![("web", web), ("db", db)],
    )
    .unwrap();

    assert_eq!(snapshot.services().len(), 2);
    assert_eq!(snapshot.max_starting(), 4096);
    assert_eq!(
        snapshot
            .activation_services(snapshot.default_group())
            .unwrap(),
        vec![id("db"), id("web")]
    );
}

#[test]
fn rejects_missing_strict_target_but_warns_for_missing_want() {
    let snapshot = build(manager(vec![("boot", wants(&["optional"]))]), vec![]).unwrap();
    assert_eq!(snapshot.warnings().len(), 1);

    let broken = service(RawDependencies {
        requires: names(&["missing"]),
        ..RawDependencies::default()
    });
    assert!(matches!(
        build(
            manager(vec![("boot", RawDependencies::default())]),
            vec![("broken", broken)],
        ),
        Err(ConfigError::MissingDependency { .. })
    ));
}

#[test]
fn reports_ordering_cycle() {
    let a = service(RawDependencies {
        requires: names(&["b"]),
        ..RawDependencies::default()
    });
    let b = service(RawDependencies {
        after: names(&["a"]),
        ..RawDependencies::default()
    });
    let error = build(
        manager(vec![("boot", wants(&["a"]))]),
        vec![("a", a), ("b", b)],
    )
    .unwrap_err();

    assert!(matches!(error, ConfigError::DependencyCycle(_)));
    assert!(error.message().contains("a -> b -> a"));
}

#[test]
fn rejects_conflicts_in_activation_closure() {
    let a = service(RawDependencies {
        conflicts: names(&["b"]),
        ..RawDependencies::default()
    });
    let b = service(RawDependencies::default());

    assert!(matches!(
        build(
            manager(vec![("boot", wants(&["a", "b"]))]),
            vec![("a", a), ("b", b)],
        ),
        Err(ConfigError::EnabledConflict { .. })
    ));
}

#[test]
fn rejects_unknown_manager_field_and_excessive_parallelism() {
    // A document with an unknown field is refused by its reader, whose message comes on.
    let unknown = Err("unknown field `unknown`".to_owned());
    let mut excessive = manager(vec![("boot", RawDependencies::default())]);
    excessive.max_starting = 4097;

    for document in [unknown, Ok(excessive)] {
        assert!(ConfigSnapshot::build(document, vec![], ManagerScope::System).is_err());
    }
}

#[test]
fn rejects_service_group_name_collision() {
    let groups = vec![
        ("boot", RawDependencies::default()),
        ("same", RawDependencies::default()),
    ];
    assert!(matches!(
        build(
            manager(groups),
            vec![("same", service(RawDependencies::default()))],
        ),
        Err(ConfigError::AmbiguousDefinition(_))
    ));
}

#[test]
fn names_the_missing_want_in_its_warning() {
    let snapshot = build(manager(vec![("boot", wants(&["optional"]))]), vec![]).unwrap();
    match &snapshot.warnings()[0] {
        ConfigWarning::MissingWanted { owner, target } => {
            assert_eq!(owner.as_str(), "boot");
            assert_eq!(target.as_str(), "optional");
        }
    }
}

#[test]
fn rejects_a_missing_default_group_and_duplicate_services() {
    assert!(matches!(
        build(manager(vec![("other", RawDependencies::default())]), vec![]),
        Err(ConfigError::MissingDefaultGroup(name)) if name.as_str() == "boot"
    ));
    let twice = vec![
        ("a", service(RawDependencies::default())),
        ("a", service(RawDependencies::default())),
    ];
    assert!(matches!(
        build(manager(vec![("boot", RawDependencies::default())]), twice),
        Err(ConfigError::DuplicateDefinition(name)) if name.as_str() == "a"
    ));
}

#[test]
fn rejects_other_schemas_and_relative_rescue_commands() {
    let mut newer = manager(vec![("boot", RawDependencies::default())]);
    newer.schema_version = 2;
    assert!(matches!(
        build(newer, vec![]),
        Err(ConfigError::UnsupportedSchema { .. })
    ));
    let mut relative = manager(vec![("boot", RawDependencies::default())]);
    relative.rescue_command = Some(names(&["sh"]));
    assert!(matches!(
        build(relative, vec![]),
        Err(ConfigError::InvalidField { .. })
    ));
}

#[test]
fn groups_enable_what_they_list() {
    let snapshot = build(
        manager(vec![("boot", wants(&["web"]))]),
        vec![
            ("web", service(RawDependencies::default())),
            ("db", service(RawDependencies::default())),
        ],
    )
    .unwrap();
    assert!(snapshot.is_enabled(&id("web")));
    assert!(!snapshot.is_enabled(&id("db")));
    assert_eq!(*snapshot.rescue_command(), names(&["/bin/sh"]));
    assert!(snapshot.shutdown_group().is_none());
    assert!(snapshot.activation_services(&id("gone")).is_none());
}
