use loom::config_edit::{edit_enabled, EditError};
use loom::model::ServiceId;

const SOURCE: &str = r#"# keep this comment
schema_version = 1
default_group = "boot"

[groups.boot]
# and this one
wants = ["db"]
"#;

#[test]
fn edits_membership_without_losing_comments() {
    let service = ServiceId::new("web").unwrap();
    let enabled = edit_enabled(SOURCE, &service, true).unwrap();
    assert!(enabled.contains("# keep this comment"));
    assert!(enabled.contains("# and this one"));
    assert!(enabled.contains("\"web\""));

    let disabled = edit_enabled(&enabled, &service, false).unwrap();
    assert!(!disabled.contains("\"web\""));
    assert!(disabled.contains("\"db\""));
}

#[test]
fn repeated_edit_is_idempotent() {
    let service = ServiceId::new("db").unwrap();
    assert_eq!(edit_enabled(SOURCE, &service, true).unwrap(), SOURCE);
}

#[test]
fn disabling_what_is_not_enabled_changes_nothing() {
    let service = ServiceId::new("web").unwrap();
    assert_eq!(edit_enabled(SOURCE, &service, false).unwrap(), SOURCE);
}

#[test]
fn writes_the_new_member_last() {
    let service = ServiceId::new("web").unwrap();
    assert_eq!(
        edit_enabled(SOURCE, &service, true).unwrap(),
        SOURCE.replace("[\"db\"]", "[\"db\", \"web\"]")
    );
}

#[test]
fn removes_only_the_named_member() {
    let service = ServiceId::new("db").unwrap();
    assert_eq!(
        edit_enabled(SOURCE, &service, false).unwrap(),
        SOURCE.replace("[\"db\"]", "[]")
    );
}

#[test]
fn refuses_documents_it_cannot_edit() {
    let service = ServiceId::new("web").unwrap();
    assert!(matches!(
        edit_enabled("= broken", &service, true),
        Err(EditError::Parse(_))
    ));
    let message = edit_enabled("= broken", &service, true).unwrap_err().message();
    assert!(message.starts_with("manager TOML is invalid: TOML parse error at line 1"));
    assert!(matches!(
        edit_enabled("schema_version = 1\n", &service, true),
        Err(EditError::MissingDefaultGroup)
    ));
    let without_list = "default_group = \"boot\"\n[groups.boot]\n";
    match edit_enabled(without_list, &service, true) {
        Err(EditError::MissingWants(group)) => assert_eq!(group, "boot"),
        _ => panic!("a group without a list is refused"),
    }
}

#[test]
fn an_edit_touches_one_place_of_the_text() {
    let source = "default_group = \"boot\" # first\n\n[groups.boot]\nwants = [\n  # base\n  \"db\", # store\n  \"ssh\",\n]\n# last\n";
    let web = ServiceId::new("web").unwrap();
    let added = edit_enabled(source, &web, true).unwrap();
    assert_eq!(
        added,
        source.replace("\"ssh\",", "\"ssh\", \"web\",")
    );
    assert_eq!(edit_enabled(&added, &web, false).unwrap(), source);
    let ssh = ServiceId::new("ssh").unwrap();
    let removed = edit_enabled(source, &ssh, false).unwrap();
    assert!(removed.contains("# base") && removed.contains("# first"));
    assert!(removed.contains("# last") && !removed.contains("ssh"));
}
