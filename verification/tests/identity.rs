use loom::environment::Environment;
use loom::identity::{
    parse_group, parse_passwd, process_identity, AccountDatabase, IdentityError,
};
use loom::model::{
    IdentitySelection, IdentitySpec, ManagerScope, ProcessDefinition, ProcessType, Readiness,
    ResolvedIdentity,
};

fn database() -> AccountDatabase {
    AccountDatabase::parse(
        "root:x:0:0:root:/root:/bin/sh\nalice:x:1000:100:Alice:/home/alice:/bin/zsh\n",
        "root:x:0:\nusers:x:100:alice\naudio:x:18:alice\nvideo:x:27:\n",
    )
    .unwrap()
}

fn process(user: IdentitySelection, group: IdentitySelection) -> ProcessDefinition {
    ProcessDefinition {
        command: vec!["/bin/true".into()],
        kind: ProcessType::Simple,
        readiness: Readiness::Exec,
        user,
        group,
        supplementary_groups: vec![IdentitySpec::Name("video".into())],
        working_directory: "/".into(),
        environment: Environment::new(),
        umask: 0o022,
    }
}

fn named(name: &str) -> IdentitySelection {
    IdentitySelection::Explicit(IdentitySpec::Name(name.into()))
}

fn root() -> ResolvedIdentity {
    ResolvedIdentity {
        uid: 0,
        gid: 0,
        supplementary_groups: vec![],
    }
}

#[test]
fn resolves_local_account_and_supplementary_groups() {
    let account = database()
        .resolve(
            &process(named("alice"), named("users")),
            ManagerScope::System,
            &ResolvedIdentity {
                uid: 0,
                gid: 0,
                supplementary_groups: vec![],
            },
        )
        .unwrap();

    assert_eq!(account.identity.uid, 1000);
    assert_eq!(account.identity.gid, 100);
    assert_eq!(account.identity.supplementary_groups, vec![18, 27]);
    assert_eq!(account.home, "/home/alice");
}

#[test]
fn user_scope_rejects_identity_change() {
    let result = database().resolve(
        &process(named("root"), named("root")),
        ManagerScope::User,
        &ResolvedIdentity {
            uid: 1000,
            gid: 100,
            supplementary_groups: vec![18],
        },
    );
    assert!(matches!(result, Err(IdentityError::UserUidMismatch { .. })));
}

#[test]
fn rejects_malformed_account_records() {
    assert!(parse_passwd("broken").is_err());
    assert!(parse_group("broken").is_err());
}

#[test]
fn skips_comments_and_numbers_the_bad_line() {
    let source = "# accounts\n\nroot:x:0:0:root:/root:/bin/sh\r\nbad:x:none:0::/:/bin/sh\n";
    match parse_passwd(source) {
        Err(error) => {
            assert_eq!(error.message(), "invalid passwd entry on line 4: invalid UID")
        }
        Ok(_) => panic!("the fourth line is refused"),
    }
}

#[test]
fn unknown_names_and_numbers_are_refused() {
    let accounts = database();
    let resolve = |user, group| accounts.resolve(&process(user, group), ManagerScope::System, &root());
    let number = |id| IdentitySelection::Explicit(IdentitySpec::Id(id));
    assert!(matches!(
        resolve(named("nobody"), named("root")),
        Err(IdentityError::UnknownUser(name)) if name == "nobody"
    ));
    assert!(matches!(
        resolve(number(7), named("root")),
        Err(IdentityError::UnknownUid(7))
    ));
    assert!(matches!(
        resolve(named("root"), named("wheel")),
        Err(IdentityError::UnknownGroup(name)) if name == "wheel"
    ));
    assert!(matches!(
        resolve(named("root"), number(7)),
        Err(IdentityError::UnknownGid(7))
    ));
}

#[test]
fn user_services_keep_the_managers_group() {
    let result = database().resolve(
        &process(named("alice"), named("audio")),
        ManagerScope::User,
        &ResolvedIdentity {
            uid: 1000,
            gid: 100,
            supplementary_groups: vec![],
        },
    );
    assert!(matches!(
        result,
        Err(IdentityError::UserGidMismatch {
            requested: 18,
            manager: 100
        })
    ));
}

#[test]
fn manager_groups_are_sorted_and_unique() {
    let identity = process_identity(1000, 100, &vec![27, 18, 27, 4]);
    assert_eq!(identity.supplementary_groups, vec![4, 18, 27]);
}
