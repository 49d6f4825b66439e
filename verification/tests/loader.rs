use loom::config::{RawManagerConfig, Source};
use loom::loader::{
    is_service_file, join_path, manager_source, source_text, validate_directory, validate_file,
    ConfigLoader, FileFacts, LoadError, DEFAULT_USER_MANAGER,
};
use loom::model::{RawDependencies, RawProcess, RawServiceDefinition, ServiceId};

fn id(name: &str) -> ServiceId {
    ServiceId::new(name).unwrap()
}

fn service(command: &str) -> RawServiceDefinition {
    RawServiceDefinition::new(RawProcess::new(vec![command.to_owned()]))
}

fn manager() -> RawManagerConfig {
    let mut raw = RawManagerConfig::new("boot");
    let lists = RawDependencies {
        wants: vec!["svc".into()],
        ..RawDependencies::default()
    };
    raw.groups.push(("boot".into(), lists));
    raw
}

fn file(uid: u32, mode: u32) -> FileFacts {
    FileFacts {
        directory: false,
        regular: true,
        uid,
        mode,
        length: 10,
    }
}

#[test]
fn higher_layer_replaces_whole_service_file() {
    let vendor: Vec<Source> = vec![(id("svc"), Ok(service("/usr/bin/vendor")))];
    let admin: Vec<Source> = vec![(id("svc"), Ok(service("/usr/bin/admin")))];

    let snapshot = ConfigLoader::load_system(Ok(manager()), vec![vendor, admin]).unwrap();
    assert_eq!(
        snapshot.service(&id("svc")).unwrap().process.command[0],
        "/usr/bin/admin"
    );
}

#[test]
fn rejects_group_writable_and_symlinked_files() {
    assert!(matches!(
        validate_file("loom.toml", &file(0, 0o100664), 0),
        Err(LoadError::Unsafe { .. })
    ));
    assert!(validate_file("loom.toml", &file(0, 0o100644), 0).is_ok());
    let linked = FileFacts {
        regular: false,
        ..file(0, 0o120777)
    };
    assert!(validate_file("linked.toml", &linked, 0).is_err());
}

#[test]
fn missing_user_manager_uses_memory_default() {
    let source = manager_source("missing.toml", None, Some(DEFAULT_USER_MANAGER)).unwrap();
    assert_eq!(source, DEFAULT_USER_MANAGER);
    let mut raw = RawManagerConfig::new("boot");
    raw.groups.push(("boot".into(), RawDependencies::default()));
    let snapshot = ConfigLoader::load_user(Ok(raw), vec![]).unwrap();
    assert!(snapshot.services().is_empty());
    assert_eq!(snapshot.default_group().as_str(), "boot");
}

#[test]
fn missing_system_manager_is_an_error() {
    let error = manager_source("/etc/loom/loom.toml", None, None).unwrap_err();
    assert_eq!(
        error.message(),
        "missing manager configuration /etc/loom/loom.toml"
    );
}

#[test]
fn refuses_foreign_owners_and_large_files() {
    let error = validate_file("a.toml", &file(7, 0o100600), 0).unwrap_err();
    assert_eq!(
        error.message(),
        "unsafe configuration path a.toml: owner UID is 7, expected 0"
    );
    let large = FileFacts {
        length: 1024 * 1024 + 1,
        ..file(0, 0o100600)
    };
    let error = validate_file("a.toml", &large, 0).unwrap_err();
    assert_eq!(
        error.message(),
        "unsafe configuration path a.toml: exceeds 1048576 byte limit"
    );
    assert!(source_text("a.toml", &vec![b' '; 1024 * 1024]).is_ok());
    assert!(source_text("a.toml", &vec![b' '; 1024 * 1024 + 1]).is_err());
}

#[test]
fn files_must_be_utf8() {
    assert_eq!(
        source_text("a.toml", &"\u{e9} = 1".as_bytes().to_vec()).unwrap(),
        "\u{e9} = 1"
    );
    assert!(matches!(
        source_text("a.toml", &vec![0xff, 0xfe]),
        Err(LoadError::NotUtf8(path)) if path == "a.toml"
    ));
}

#[test]
fn directories_must_be_real_and_private() {
    let directory = FileFacts {
        directory: true,
        regular: false,
        ..file(0, 0o40755)
    };
    assert!(validate_directory("/etc/loom/services", &directory, 0).is_ok());
    let shared = FileFacts {
        mode: 0o40777,
        ..directory
    };
    assert!(validate_directory("/etc/loom/services", &shared, 0).is_err());
    assert!(validate_directory("/etc/loom/services", &file(0, 0o100644), 0).is_err());
}

#[test]
fn layers_lie_below_their_roots() {
    let paths: Vec<String> = ConfigLoader::system_layers("/mnt")
        .into_iter()
        .map(|layer| layer.directory)
        .collect();
    assert_eq!(
        paths,
        [
            "/mnt/usr/lib/loom/services",
            "/mnt/etc/loom/services",
            "/mnt/run/loom/services"
        ]
    );
    let layers = ConfigLoader::user_layers("/", "/home/a/.config", "/run/user/9", 9);
    assert_eq!(layers[0].directory, "/usr/lib/loom/user/services");
    assert_eq!(layers[0].uid, 0);
    assert_eq!(layers[1].directory, "/home/a/.config/loom/services");
    assert_eq!(layers[2].uid, 9);
    assert_eq!(
        ConfigLoader::system_manager_path("/mnt/"),
        "/mnt/etc/loom/loom.toml"
    );
}

#[test]
fn only_toml_files_are_definitions() {
    assert!(is_service_file("web.toml"));
    assert!(!is_service_file("web.toml.bak"));
    assert!(!is_service_file(".toml"));
    assert_eq!(join_path("/a", "/b"), "/b");
    assert_eq!(join_path("/a/", "b"), "/a/b");
}
