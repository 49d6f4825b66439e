use loom::control::{
    check_ready_option, choose_program, exit_code, failure_code, handle_response,
    manager_arguments, manager_options, offline_command, parse_operation, private_directory,
    request_packet, resolve_operation, runtime_directory, socket_path, starts_manager,
    valid_ready_descriptor, validate_target, ClientFailure, ManagerProgram, OfflineCommand,
    Surroundings,
};
use loom::manager::{ManagerMode, ManagerOptions};
use loom::protocol::{MessageKind, Operation, Packet, StatusCode};
use loom::request::{enabled_payload, screen, Admission, RequestContext};

fn text(value: &str) -> Option<String> {
    Some(value.to_owned())
}

fn answer(status: StatusCode, more: bool, payload: &[u8]) -> Vec<u8> {
    Packet {
        kind: MessageKind::Response,
        request_id: 1,
        operation: Operation::Status,
        status,
        more,
        payload: payload.to_vec(),
    }
    .encode()
    .unwrap()
}

#[test]
fn commands_name_operations() {
    assert_eq!(parse_operation("reload-service"), Ok(Operation::ReloadService));
    assert_eq!(parse_operation("critical-path"), Ok(Operation::CriticalPath));
    assert_eq!(parse_operation("poweroff"), Ok(Operation::Poweroff));
    assert_eq!(
        parse_operation("explode"),
        Err("unknown command explode".to_owned())
    );
}

#[test]
fn options_go_with_their_commands() {
    assert_eq!(resolve_operation("apply", true, false), Ok(Operation::ApplyDryRun));
    assert_eq!(resolve_operation("stop", false, true), Ok(Operation::StopForce));
    assert_eq!(resolve_operation("stop", false, false), Ok(Operation::Stop));
    assert_eq!(
        resolve_operation("stop", true, false),
        Err("--dry-run is valid only with apply".to_owned())
    );
    assert_eq!(
        resolve_operation("apply", true, true),
        Err("--force is valid only with stop".to_owned())
    );
}

#[test]
fn targets_are_asked_for_where_they_are_needed() {
    assert_eq!(
        validate_target(Operation::StopForce, false, false),
        Err("StopForce requires a service name".to_owned())
    );
    assert_eq!(
        validate_target(Operation::List, true, false),
        Err("unexpected service name".to_owned())
    );
    assert_eq!(
        validate_target(Operation::Start, true, true),
        Err("--now is valid only with enable or disable".to_owned())
    );
    assert_eq!(validate_target(Operation::Status, true, false), Ok(()));
    assert_eq!(validate_target(Operation::Disable, true, true), Ok(()));
}

#[test]
fn requests_arrive_as_they_were_sent() {
    let packet = request_packet(Operation::Enable, &text("web"), true, true);
    assert_eq!(packet.payload, b"toml\nnow\nweb");
    let context = RequestContext {
        mode: ManagerMode::User,
        manager_uid: 1000,
        client_uid: 1000,
        shutting_down: false,
        apply_pending: false,
        request_pending: false,
    };
    match screen(&packet.encode().unwrap(), context) {
        Admission::Accepted {
            request,
            format_toml,
        } => {
            assert!(format_toml);
            assert_eq!(request.operation, Operation::Enable);
            let (service, now) = enabled_payload(&request.payload).unwrap();
            assert_eq!(service.as_str(), "web");
            assert!(now);
        }
        _ => panic!("the owner's request is accepted"),
    }
    assert!(request_packet(Operation::List, &None, false, false)
        .payload
        .is_empty());
}

#[test]
fn statuses_give_exit_codes() {
    assert_eq!(exit_code(StatusCode::Success), 0);
    assert_eq!(exit_code(StatusCode::Internal), 1);
    assert_eq!(exit_code(StatusCode::NotFound), 2);
    assert_eq!(exit_code(StatusCode::PermissionDenied), 3);
    assert_eq!(exit_code(StatusCode::ManagerUnavailable), 4);
    assert_eq!(exit_code(StatusCode::Timeout), 5);
    assert_eq!(failure_code(ClientFailure::Usage), 2);
    assert_eq!(failure_code(ClientFailure::Denied), 3);
    assert_eq!(failure_code(ClientFailure::Unreachable), 4);
    assert_eq!(failure_code(ClientFailure::TimedOut), 5);
}

#[test]
fn answers_end_with_a_newline_and_an_exit_code() {
    let step = handle_response(&answer(StatusCode::NotFound, false, b"gone"), 1, false).unwrap();
    assert_eq!(step.output, b"gone\n");
    assert!(step.to_stderr);
    assert_eq!(step.exit, Some(2));

    let step = handle_response(&answer(StatusCode::Success, true, b"part"), 1, false).unwrap();
    assert_eq!(step.output, b"part");
    assert!(!step.to_stderr);
    assert_eq!(step.exit, None);

    let step = handle_response(&answer(StatusCode::NotFound, false, b""), 1, true).unwrap();
    assert!(step.output.is_empty());
    assert!(!step.to_stderr);

    assert_eq!(
        handle_response(&answer(StatusCode::Success, false, b""), 2, false),
        Err("manager returned an unrelated response".to_owned())
    );
    assert!(handle_response(&vec![1, 2, 3], 1, false).is_err());
}

#[test]
fn runtime_directories_come_from_options_session_or_root() {
    assert_eq!(
        runtime_directory(false, &None, &text("/run/user/9"), "/mnt"),
        Ok("/mnt/run".to_owned())
    );
    assert_eq!(
        runtime_directory(true, &None, &text("/run/user/9"), "/mnt"),
        Ok("/run/user/9".to_owned())
    );
    assert_eq!(
        runtime_directory(true, &text("/tmp/r"), &None, "/mnt"),
        Ok("/tmp/r".to_owned())
    );
    assert_eq!(
        runtime_directory(true, &None, &None, "/"),
        Err("--user requires XDG_RUNTIME_DIR")
    );
    assert_eq!(socket_path("/run/user/9"), "/run/user/9/loom/control.sock");
}

#[test]
fn only_private_directories_hold_a_users_socket() {
    assert!(private_directory(true, 9, 0o40700, 9));
    assert!(!private_directory(true, 9, 0o40750, 9));
    assert!(!private_directory(true, 0, 0o40700, 9));
    assert!(!private_directory(false, 9, 0o100600, 9));
    assert!(starts_manager(true, Operation::Apply));
    assert!(!starts_manager(true, Operation::ApplyDryRun));
    assert!(!starts_manager(false, Operation::Apply));
}

#[test]
fn the_installed_manager_is_preferred() {
    assert_eq!(choose_program(true, true), Ok(ManagerProgram::Installed));
    assert_eq!(choose_program(false, true), Ok(ManagerProgram::Sibling));
    assert_eq!(
        choose_program(false, false),
        Err("Loom manager executable is not installed")
    );
    assert_eq!(
        manager_arguments("/", "/run/user/9"),
        ["--user", "--root", "/", "--runtime-dir", "/run/user/9"]
    );
}

#[test]
fn manager_options_fall_back_to_the_surroundings() {
    let around = Surroundings {
        config_home: None,
        home: text("/home/a"),
        runtime_dir: text("/run/user/9"),
    };
    let options = manager_options(ManagerMode::User, "/", &None, &None, &around).unwrap();
    assert_eq!(options.config_home, text("/home/a/.config"));
    assert_eq!(options.runtime_dir, "/run/user/9");
    assert_eq!(options.control_directory(), "/run/user/9/loom");
    assert_eq!(
        options.manager_config_path().unwrap(),
        "/home/a/.config/loom/loom.toml"
    );

    let bare = Surroundings {
        config_home: None,
        home: None,
        runtime_dir: None,
    };
    assert!(matches!(
        manager_options(ManagerMode::User, "/", &None, &None, &bare),
        Err("user manager requires XDG_CONFIG_HOME or HOME")
    ));
    assert!(matches!(
        manager_options(ManagerMode::User, "/", &text("/c"), &None, &bare),
        Err("user manager requires XDG_RUNTIME_DIR")
    ));
    let options = manager_options(ManagerMode::System, "/mnt", &None, &None, &bare).unwrap();
    assert_eq!(options.runtime_dir, "/mnt/run");
    assert_eq!(ManagerOptions::system("/").runtime_dir, "/run");
}

#[test]
fn offline_commands_name_what_they_miss() {
    assert_eq!(
        offline_command("validate", ManagerMode::System, &None, &None, &None, &None),
        Ok(OfflineCommand::ValidateSystem)
    );
    assert_eq!(
        offline_command("validate", ManagerMode::User, &None, &None, &None, &None),
        Err("validate --user requires --config-home".to_owned())
    );
    assert_eq!(
        offline_command(
            "compile-service",
            ManagerMode::System,
            &None,
            &None,
            &text("a.toml"),
            &None
        ),
        Err("compile-service requires --output FILE or -".to_owned())
    );
    assert_eq!(
        offline_command("dance", ManagerMode::System, &None, &None, &None, &None),
        Err("unknown loom command dance".to_owned())
    );
}

#[test]
fn readiness_is_for_user_managers() {
    assert_eq!(check_ready_option(ManagerMode::User, true), Ok(()));
    assert_eq!(
        check_ready_option(ManagerMode::System, true),
        Err("--ready-fd is restricted to user managers")
    );
    assert!(valid_ready_descriptor(3));
    assert!(!valid_ready_descriptor(2));
}
