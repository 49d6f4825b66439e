//! The command line: what the arguments of both programs ask for, the request that is sent,
//! and what an answer means.

use vstd::prelude::*;

use crate::loader;
use crate::manager::{ManagerErrorModel, ManagerMode, ManagerOptions};
use crate::model;
use crate::protocol;
use crate::protocol::{
    MessageKind, Operation, Packet, PacketModel, ProtocolError, StatusCode, MAX_PAYLOAD_LEN,
};
use crate::request;
use crate::text;

verus! {

broadcast use vstd::string::group_string_axioms;

/// The operation that a command names.
pub open spec fn operation_of(name: Seq<char>) -> Option<Operation> {
    if name == "start"@ {
        Some(Operation::Start)
    } else if name == "stop"@ {
        Some(Operation::Stop)
    } else if name == "restart"@ {
        Some(Operation::Restart)
    } else if name == "reload-service"@ {
        Some(Operation::ReloadService)
    } else if name == "status"@ {
        Some(Operation::Status)
    } else if name == "list"@ {
        Some(Operation::List)
    } else if name == "is-active"@ {
        Some(Operation::IsActive)
    } else if name == "is-enabled"@ {
        Some(Operation::IsEnabled)
    } else if name == "dependencies"@ {
        Some(Operation::Dependencies)
    } else if name == "enable"@ {
        Some(Operation::Enable)
    } else if name == "disable"@ {
        Some(Operation::Disable)
    } else if name == "reload"@ {
        Some(Operation::Reload)
    } else if name == "apply"@ {
        Some(Operation::Apply)
    } else if name == "reset-failed"@ {
        Some(Operation::ResetFailed)
    } else if name == "timings"@ {
        Some(Operation::Timings)
    } else if name == "critical-path"@ {
        Some(Operation::CriticalPath)
    } else if name == "reboot"@ {
        Some(Operation::Reboot)
    } else if name == "poweroff"@ {
        Some(Operation::Poweroff)
    } else {
        None
    }
}

fn find_operation(name: &str) -> (r: Option<Operation>)
    ensures
        r == operation_of(name@),
{
    if text::same_text(name, "start") {
        Some(Operation::Start)
    } else if text::same_text(name, "stop") {
        Some(Operation::Stop)
    } else if text::same_text(name, "restart") {
        Some(Operation::Restart)
    } else if text::same_text(name, "reload-service") {
        Some(Operation::ReloadService)
    } else if text::same_text(name, "status") {
        Some(Operation::Status)
    } else if text::same_text(name, "list") {
        Some(Operation::List)
    } else if text::same_text(name, "is-active") {
        Some(Operation::IsActive)
    } else if text::same_text(name, "is-enabled") {
        Some(Operation::IsEnabled)
    } else if text::same_text(name, "dependencies") {
        Some(Operation::Dependencies)
    } else if text::same_text(name, "enable") {
        Some(Operation::Enable)
    } else if text::same_text(name, "disable") {
        Some(Operation::Disable)
    } else if text::same_text(name, "reload") {
        Some(Operation::Reload)
    } else if text::same_text(name, "apply") {
        Some(Operation::Apply)
    } else if text::same_text(name, "reset-failed") {
        Some(Operation::ResetFailed)
    } else if text::same_text(name, "timings") {
        Some(Operation::Timings)
    } else if text::same_text(name, "critical-path") {
        Some(Operation::CriticalPath)
    } else if text::same_text(name, "reboot") {
        Some(Operation::Reboot)
    } else if text::same_text(name, "poweroff") {
        Some(Operation::Poweroff)
    } else {
        None
    }
}

/// The operation that a command names; other commands are refused.
pub fn parse_operation(command: &str) -> (r: Result<Operation, String>)
    ensures
        match r {
            Ok(operation) => operation_of(command@) == Some(operation),
            Err(reason) => operation_of(command@) is None && reason@ == "unknown command "@
                + command@,
        },
{
    match find_operation(command) {
        Some(operation) => Ok(operation),
        None => Err(text::concat2("unknown command ", command)),
    }
}

/// The name of an operation in messages.
pub open spec fn operation_label(operation: Operation) -> Seq<char> {
    match operation {
        Operation::Start => "Start"@,
        Operation::Stop => "Stop"@,
        Operation::Restart => "Restart"@,
        Operation::ReloadService => "ReloadService"@,
        Operation::Status => "Status"@,
        Operation::List => "List"@,
        Operation::IsActive => "IsActive"@,
        Operation::IsEnabled => "IsEnabled"@,
        Operation::Dependencies => "Dependencies"@,
        Operation::Enable => "Enable"@,
        Operation::Disable => "Disable"@,
        Operation::Reload => "Reload"@,
        Operation::Apply => "Apply"@,
        Operation::ResetFailed => "ResetFailed"@,
        Operation::Timings => "Timings"@,
        Operation::CriticalPath => "CriticalPath"@,
        Operation::Reboot => "Reboot"@,
        Operation::Poweroff => "Poweroff"@,
        Operation::ApplyDryRun => "ApplyDryRun"@,
        Operation::StopForce => "StopForce"@,
    }
}

fn operation_name(operation: Operation) -> (r: &'static str)
    ensures
        r@ == operation_label(operation),
{
    match operation {
        Operation::Start => "Start",
        Operation::Stop => "Stop",
        Operation::Restart => "Restart",
        Operation::ReloadService => "ReloadService",
        Operation::Status => "Status",
        Operation::List => "List",
        Operation::IsActive => "IsActive",
        Operation::IsEnabled => "IsEnabled",
        Operation::Dependencies => "Dependencies",
        Operation::Enable => "Enable",
        Operation::Disable => "Disable",
        Operation::Reload => "Reload",
        Operation::Apply => "Apply",
        Operation::ResetFailed => "ResetFailed",
        Operation::Timings => "Timings",
        Operation::CriticalPath => "CriticalPath",
        Operation::Reboot => "Reboot",
        Operation::Poweroff => "Poweroff",
        Operation::ApplyDryRun => "ApplyDryRun",
        Operation::StopForce => "StopForce",
    }
}

/// The operation of a command with its options, or why they are refused: only applying can
/// be tried out, and only stopping can be forced.
pub open spec fn operation_result(command: Seq<char>, dry_run: bool, force: bool) -> Result<
    Operation,
    Seq<char>,
> {
    match operation_of(command) {
        None => Err("unknown command "@ + command),
        Some(operation) => if dry_run && operation != Operation::Apply {
            Err("--dry-run is valid only with apply"@)
        } else if force && (dry_run || operation != Operation::Stop) {
            Err("--force is valid only with stop"@)
        } else if dry_run {
            Ok(Operation::ApplyDryRun)
        } else if force {
            Ok(Operation::StopForce)
        } else {
            Ok(operation)
        },
    }
}

/// The operation of a command with its options.
pub fn resolve_operation(command: &str, dry_run: bool, force: bool) -> (r: Result<
    Operation,
    String,
>)
    ensures
        (match r {
            Ok(operation) => Ok::<Operation, Seq<char>>(operation),
            Err(reason) => Err(reason@),
        }) == operation_result(command@, dry_run, force),
{
    let mut operation = match parse_operation(command) {
        Ok(operation) => operation,
        Err(reason) => return Err(reason),
    };
    if dry_run {
        if operation != Operation::Apply {
            return Err(text::owned("--dry-run is valid only with apply"));
        }
        operation = Operation::ApplyDryRun;
    }
    if force {
        if operation != Operation::Stop {
            return Err(text::owned("--force is valid only with stop"));
        }
        operation = Operation::StopForce;
    }
    Ok(operation)
}

/// Whether an operation is about one named service or group.
pub open spec fn needs_target(operation: Operation) -> bool {
    match operation {
        Operation::Start | Operation::Stop | Operation::StopForce | Operation::Restart
        | Operation::ReloadService | Operation::IsActive | Operation::IsEnabled
        | Operation::Dependencies | Operation::Enable | Operation::Disable
        | Operation::ResetFailed => true,
        _ => false,
    }
}

/// Why the target of a command is refused, where it is.
pub open spec fn target_error(operation: Operation, named: bool, now: bool) -> Option<Seq<char>> {
    if needs_target(operation) && !named {
        Some(operation_label(operation) + " requires a service name"@)
    } else if !needs_target(operation) && named && operation != Operation::Status {
        Some("unexpected service name"@)
    } else if now && operation != Operation::Enable && operation != Operation::Disable {
        Some("--now is valid only with enable or disable"@)
    } else {
        None
    }
}

/// Checks that a command has a target where it needs one, and that its options go with it.
pub fn validate_target(operation: Operation, named: bool, now: bool) -> (r: Result<(), String>)
    ensures
        (match r {
            Ok(_) => None,
            Err(reason) => Some(reason@),
        }) == target_error(operation, named, now),
{
    let needed = match operation {
        Operation::Start | Operation::Stop | Operation::StopForce | Operation::Restart
        | Operation::ReloadService | Operation::IsActive | Operation::IsEnabled
        | Operation::Dependencies | Operation::Enable | Operation::Disable
        | Operation::ResetFailed => true,
        _ => false,
    };
    if needed && !named {
        return Err(text::concat2(operation_name(operation), " requires a service name"));
    }
    if !needed && named && operation != Operation::Status {
        return Err(text::owned("unexpected service name"));
    }
    if now && operation != Operation::Enable && operation != Operation::Disable {
        return Err(text::owned("--now is valid only with enable or disable"));
    }
    Ok(())
}

/// The payload of a request: a mark that the answer is to be in TOML, a mark that the change
/// is to be made at once, and the target.
pub open spec fn request_payload(target: Option<Seq<char>>, now: bool, format_toml: bool) -> Seq<
    u8,
> {
    let named = match target {
        None => Seq::empty(),
        Some(target) => if now {
            text::encoded("now\n"@ + target)
        } else {
            text::encoded(target)
        },
    };
    if format_toml {
        request::format_prefix() + named
    } else {
        named
    }
}

/// The request of a command.
pub open spec fn request_model(
    operation: Operation,
    target: Option<Seq<char>>,
    now: bool,
    format_toml: bool,
) -> PacketModel {
    PacketModel {
        kind: MessageKind::Request,
        request_id: 1,
        operation,
        status: StatusCode::Success,
        more: false,
        payload: request_payload(target, now, format_toml),
    }
}

/// The request of a command.
pub fn request_packet(
    operation: Operation,
    target: &Option<String>,
    now: bool,
    format_toml: bool,
) -> (r: Packet)
    ensures
        r@ == request_model(operation, text::optional_text(*target), now, format_toml),
{
    let named = match target {
        None => Vec::new(),
        Some(target) => if now {
            let marked = text::concat2("now\n", target.as_str());
            text::bytes_of(marked.as_str())
        } else {
            text::bytes_of(target.as_str())
        },
    };
    let payload = if format_toml {
        let ghost given = named@;
        let mut payload: Vec<u8> = vec![116, 111, 109, 108, 10];
        let mut rest = named;
        payload.append(&mut rest);
        proof {
            assert(payload@ =~= request::format_prefix() + given);
        }
        payload
    } else {
        named
    };
    Packet {
        kind: MessageKind::Request,
        request_id: 1,
        operation,
        status: StatusCode::Success,
        more: false,
        payload,
    }
}

proof fn identifier_encoding(target: Seq<char>)
    requires
        model::valid_identifier(target),
    ensures
        text::encoded(target).len() == target.len(),
        !request::wants_toml(text::encoded(target)),
        text::encoded("now\n"@ + target).len() == target.len() + 4,
        !request::wants_toml(text::encoded("now\n"@ + target)),
        text::trim(target) == target,
        !text::has_prefix(target, "now\n"@),
        text::has_prefix("now\n"@ + target, "now\n"@),
        ("now\n"@ + target).skip("now\n"@.len() as int) == target,
{
    reveal_strlit("now\n");
    let marked = "now\n"@ + target;
    assert forall|i: int| 0 <= i < target.len() implies '\0' <= #[trigger] target[i] <= '\u{7f}' by {
        assert(model::is_id_char(target[i]));
    }
    assert(vstd::utf8::is_ascii_chars(target));
    assert(vstd::utf8::is_ascii_chars(marked)) by {
        assert forall|i: int| 0 <= i < marked.len() implies '\0' <= #[trigger] marked[i]
            <= '\u{7f}' by {
            if i >= 4 {
                assert(marked[i] == target[i - 4]);
            }
        }
    }
    vstd::utf8::is_ascii_chars_encode_utf8(target);
    vstd::utf8::is_ascii_chars_encode_utf8(marked);
    let bytes = text::encoded(target);
    if request::wants_toml(bytes) {
        assert(bytes.take(5)[4] == 10);
        assert(bytes[4] == 10u8);
        assert(model::is_id_char(target[4]));
        assert(target[4] as u8 == bytes[4]);
    }
    let marked_bytes = text::encoded(marked);
    if request::wants_toml(marked_bytes) {
        assert(marked_bytes.take(5)[0] == 116);
        assert(marked[0] as u8 == marked_bytes[0]);
    }
    assert(model::is_id_char(target[0]));
    assert(model::is_id_char(target.last())) by {
        assert(target.last() == target[target.len() - 1]);
    }
    text::trim_law(target);
    if text::has_prefix(target, "now\n"@) {
        assert(target.take(4)[3] == '\n');
        assert(model::is_id_char(target[3]));
    }
    assert(marked.take(4) =~= "now\n"@);
    assert(marked.skip(4) =~= target);
}

/// What a command asks for arrives: the request can be encoded, the manager reads the
/// packet back, sees whether the answer is to be in TOML, and finds the same target and
/// whether the change is to be made at once.
pub proof fn request_law(operation: Operation, target: Seq<char>, now: bool, format_toml: bool)
    requires
        model::valid_identifier(target),
    ensures
        ({
            let packet = request_model(operation, Some(target), now, format_toml);
            let plain = request::plain_payload(packet.payload);
            &&& packet.payload.len() <= MAX_PAYLOAD_LEN
            &&& protocol::decoded(protocol::encoded(packet)) == Ok::<PacketModel, ProtocolError>(
                packet,
            )
            &&& request::wants_toml(packet.payload) == format_toml
            &&& !now ==> request::target_result(plain) == Ok::<
                Seq<char>,
                ManagerErrorModel,
            >(target)
            &&& request::enabled_result(plain) == Ok::<
                (Seq<char>, bool),
                ManagerErrorModel,
            >((target, now))
        }),
{
    identifier_encoding(target);
    let marked = "now\n"@ + target;
    text::utf8_law(target);
    text::utf8_law(marked);
    let packet = request_model(operation, Some(target), now, format_toml);
    let named = if now {
        text::encoded(marked)
    } else {
        text::encoded(target)
    };
    let payload = packet.payload;
    if format_toml {
        assert(payload.take(5) =~= request::format_prefix());
        assert(payload.skip(5) =~= named);
    }
    assert(request::plain_payload(payload) == named);
    protocol::decode_after_encode(packet);
}

/// The exit code that a status gives.
pub open spec fn code_of(status: StatusCode) -> u8 {
    match status {
        StatusCode::Success => 0,
        StatusCode::ServiceFailure | StatusCode::Internal => 1,
        StatusCode::InvalidRequest | StatusCode::NotFound | StatusCode::Conflict => 2,
        StatusCode::PermissionDenied => 3,
        StatusCode::ManagerUnavailable => 4,
        StatusCode::Timeout => 5,
    }
}

/// The exit code that a status gives.
pub fn exit_code(status: StatusCode) -> (r: u8)
    ensures
        r == code_of(status),
        r == 0 <==> status == StatusCode::Success,
{
    match status {
        StatusCode::Success => 0,
        StatusCode::ServiceFailure | StatusCode::Internal => 1,
        StatusCode::InvalidRequest | StatusCode::NotFound | StatusCode::Conflict => 2,
        StatusCode::PermissionDenied => 3,
        StatusCode::ManagerUnavailable => 4,
        StatusCode::Timeout => 5,
    }
}

/// How a command failed before it was answered.
#[derive(Clone, Copy, Debug, PartialEq, Eq, Structural)]
pub enum ClientFailure {
    Usage,
    Denied,
    TimedOut,
    Unreachable,
}

/// The exit code of a command that failed before it was answered.
pub fn failure_code(failure: ClientFailure) -> (r: u8)
    ensures
        r == (match failure {
            ClientFailure::Usage => code_of(StatusCode::InvalidRequest),
            ClientFailure::Denied => code_of(StatusCode::PermissionDenied),
            ClientFailure::TimedOut => code_of(StatusCode::Timeout),
            ClientFailure::Unreachable => code_of(StatusCode::ManagerUnavailable),
        }),
{
    match failure {
        ClientFailure::Usage => 2,
        ClientFailure::Denied => 3,
        ClientFailure::TimedOut => 5,
        ClientFailure::Unreachable => 4,
    }
}

/// What is done about a packet of an answer: what is written and where, and the exit code
/// once the answer is complete.
#[derive(Debug, PartialEq, Eq)]
pub struct ResponseStep {
    pub output: Vec<u8>,
    pub to_stderr: bool,
    pub exit: Option<u8>,
}

/// What is written of a packet: its payload, with a newline after the last one where it has
/// none.
pub open spec fn shown_payload(packet: PacketModel) -> Seq<u8> {
    if packet.payload.len() > 0 && !packet.more && packet.payload.last() != 10 {
        packet.payload.push(10)
    } else {
        packet.payload
    }
}

/// What is done about a packet of an answer, or why the packet is refused. Answers in words
/// that are no success go to the standard error.
pub fn handle_response(encoded: &Vec<u8>, request_id: u64, format_toml: bool) -> (r: Result<
    ResponseStep,
    String,
>)
    ensures
        match protocol::decoded(encoded@) {
            Err(e) => r matches Err(reason) && reason@ == protocol::protocol_error_message(e),
            Ok(packet) => if packet.kind != MessageKind::Response || packet.request_id
                != request_id {
                r matches Err(reason) && reason@ == "manager returned an unrelated response"@
            } else {
                &&& r matches Ok(step)
                &&& step.output@ == shown_payload(packet)
                &&& step.to_stderr == (!format_toml && packet.status != StatusCode::Success)
                &&& step.exit == if packet.more {
                    None
                } else {
                    Some(code_of(packet.status))
                }
            },
        },
{
    let packet = match Packet::decode(encoded.as_slice()) {
        Ok(packet) => packet,
        Err(e) => return Err(e.message()),
    };
    if packet.kind != MessageKind::Response || packet.request_id != request_id {
        return Err(text::owned("manager returned an unrelated response"));
    }
    let to_stderr = !format_toml && packet.status != StatusCode::Success;
    let exit = if packet.more {
        None
    } else {
        Some(exit_code(packet.status))
    };
    let more = packet.more;
    let mut output = packet.payload;
    if output.len() > 0 && !more && output[output.len() - 1] != 10 {
        output.push(10);
    }
    Ok(ResponseStep { output, to_stderr, exit })
}

/// The runtime directory of a command: the given one; else that of the user's session, or
/// the one below the root.
pub open spec fn runtime_directory_of(
    user: bool,
    given: Option<Seq<char>>,
    session: Option<Seq<char>>,
    root: Seq<char>,
) -> Option<Seq<char>> {
    match given {
        Some(directory) => Some(directory),
        None => if user {
            session
        } else {
            Some(loader::joined(root, "run"@))
        },
    }
}

/// The runtime directory of a command. A user's needs a session.
pub fn runtime_directory(
    user: bool,
    given: &Option<String>,
    session: &Option<String>,
    root: &str,
) -> (r: Result<String, &'static str>)
    ensures
        match runtime_directory_of(
            user,
            text::optional_text(*given),
            text::optional_text(*session),
            root@,
        ) {
            Some(directory) => r matches Ok(path) && path@ == directory,
            None => r matches Err(reason) && reason@ == "--user requires XDG_RUNTIME_DIR"@,
        },
{
    if let Some(directory) = given {
        return Ok(text::owned(directory.as_str()));
    }
    if user {
        match session {
            Some(directory) => Ok(text::owned(directory.as_str())),
            None => Err("--user requires XDG_RUNTIME_DIR"),
        }
    } else {
        Ok(loader::join_path(root, "run"))
    }
}

/// The control socket below a runtime directory.
pub fn socket_path(runtime_dir: &str) -> (r: String)
    ensures
        r@ == loader::joined(runtime_dir@, "loom/control.sock"@),
{
    loader::join_path(runtime_dir, "loom/control.sock")
}

/// Whether a command starts a user manager that does not run: one that only shows a plan
/// does not.
pub fn starts_manager(user: bool, operation: Operation) -> (r: bool)
    ensures
        r == (user && operation != Operation::ApplyDryRun),
{
    user && operation != Operation::ApplyDryRun
}

/// The bits of a mode that let the group or others in.
pub const SHARED_ACCESS: u32 = 0o077;

/// Whether a runtime directory is the user's alone.
pub fn private_directory(directory: bool, owner: u32, mode: u32, uid: u32) -> (r: bool)
    ensures
        r == (directory && owner == uid && mode & SHARED_ACCESS == 0),
{
    directory && owner == uid && mode & SHARED_ACCESS == 0
}

/// The arguments with which a command starts a user manager.
pub fn manager_arguments(root: &str, runtime_dir: &str) -> (r: Vec<String>)
    ensures
        text::texts(r@) == seq![
            "--user"@,
            "--root"@,
            root@,
            "--runtime-dir"@,
            runtime_dir@,
        ],
{
    let r = vec![
        text::owned("--user"),
        text::owned("--root"),
        text::owned(root),
        text::owned("--runtime-dir"),
        text::owned(runtime_dir),
    ];
    proof {
        assert(text::texts(r@) =~= seq![
            "--user"@,
            "--root"@,
            root@,
            "--runtime-dir"@,
            runtime_dir@,
        ]);
    }
    r
}

/// Where the manager's program lies: where it is installed, or beside the client.
#[derive(Clone, Copy, Debug, PartialEq, Eq, Structural)]
pub enum ManagerProgram {
    Installed,
    Sibling,
}

/// Which program of the manager is run, out of those that are there.
pub fn choose_program(installed: bool, sibling: bool) -> (r: Result<ManagerProgram, &'static str>)
    ensures
        match r {
            Ok(ManagerProgram::Installed) => installed,
            Ok(ManagerProgram::Sibling) => !installed && sibling,
            Err(reason) => !installed && !sibling && reason@
                == "Loom manager executable is not installed"@,
        },
{
    if installed {
        Ok(ManagerProgram::Installed)
    } else if sibling {
        Ok(ManagerProgram::Sibling)
    } else {
        Err("Loom manager executable is not installed")
    }
}

/// What is known of the surroundings of a manager.
#[derive(Debug)]
pub struct Surroundings {
    pub config_home: Option<String>,
    pub home: Option<String>,
    pub runtime_dir: Option<String>,
}

/// The configuration directory of a user: the given one, that of the session, or the one
/// below the home directory.
pub open spec fn config_home_of(given: Option<Seq<char>>, around: Surroundings) -> Option<
    Seq<char>,
> {
    match given {
        Some(directory) => Some(directory),
        None => match text::optional_text(around.config_home) {
            Some(directory) => Some(directory),
            None => match text::optional_text(around.home) {
                Some(home) => Some(loader::joined(home, ".config"@)),
                None => None,
            },
        },
    }
}

fn config_home(given: &Option<String>, around: &Surroundings) -> (r: Option<String>)
    ensures
        text::optional_text(r) == config_home_of(text::optional_text(*given), *around),
{
    if let Some(directory) = given {
        return Some(text::owned(directory.as_str()));
    }
    if let Some(directory) = &around.config_home {
        return Some(text::owned(directory.as_str()));
    }
    match &around.home {
        Some(home) => Some(loader::join_path(home.as_str(), ".config")),
        None => None,
    }
}

/// Whether options are those that were asked for.
pub open spec fn options_match(
    options: ManagerOptions,
    mode: ManagerMode,
    root: Seq<char>,
    config_home: Option<Seq<char>>,
    runtime_dir: Seq<char>,
) -> bool {
    options.mode == mode && options.root@ == root && text::optional_text(options.config_home)
        == config_home && options.runtime_dir@ == runtime_dir
}

/// The options of a manager out of its arguments and its surroundings.
pub fn manager_options(
    mode: ManagerMode,
    root: &str,
    given_config_home: &Option<String>,
    given_runtime_dir: &Option<String>,
    around: &Surroundings,
) -> (r: Result<ManagerOptions, &'static str>)
    ensures
        ({
            let home = config_home_of(text::optional_text(*given_config_home), *around);
            let directory = runtime_directory_of(
                mode == ManagerMode::User,
                text::optional_text(*given_runtime_dir),
                text::optional_text(around.runtime_dir),
                root@,
            );
            match mode {
                ManagerMode::System => r matches Ok(options) && options_match(
                    options,
                    mode,
                    root@,
                    None,
                    directory->0,
                ),
                ManagerMode::User => if home is None {
                    r matches Err(reason) && reason@
                        == "user manager requires XDG_CONFIG_HOME or HOME"@
                } else if directory is None {
                    r matches Err(reason) && reason@ == "user manager requires XDG_RUNTIME_DIR"@
                } else {
                    r matches Ok(options) && options_match(options, mode, root@, home, directory->0)
                },
            }
        }),
{
    match mode {
        ManagerMode::System => {
            let mut options = ManagerOptions::system(root);
            if let Some(directory) = given_runtime_dir {
                options.runtime_dir = text::owned(directory.as_str());
            }
            Ok(options)
        },
        ManagerMode::User => {
            let home = match config_home(given_config_home, around) {
                Some(home) => home,
                None => return Err("user manager requires XDG_CONFIG_HOME or HOME"),
            };
            let directory = match given_runtime_dir {
                Some(directory) => text::owned(directory.as_str()),
                None => match &around.runtime_dir {
                    Some(directory) => text::owned(directory.as_str()),
                    None => return Err("user manager requires XDG_RUNTIME_DIR"),
                },
            };
            Ok(ManagerOptions::user(root, home.as_str(), directory.as_str()))
        },
    }
}

/// The lowest descriptor that can be handed over; those below it are the standard streams.
pub const FIRST_FREE_DESCRIPTOR: i32 = 3;

/// Whether a descriptor can be the one over which a manager says that it is ready.
pub fn valid_ready_descriptor(descriptor: i32) -> (r: bool)
    ensures
        r == (descriptor >= FIRST_FREE_DESCRIPTOR),
{
    descriptor >= FIRST_FREE_DESCRIPTOR
}

/// Checks that only a user manager is asked to say that it is ready.
pub fn check_ready_option(mode: ManagerMode, given: bool) -> (r: Result<(), &'static str>)
    ensures
        match r {
            Ok(_) => !given || mode == ManagerMode::User,
            Err(reason) => given && mode == ManagerMode::System && reason@
                == "--ready-fd is restricted to user managers"@,
        },
{
    if given && mode != ManagerMode::User {
        Err("--ready-fd is restricted to user managers")
    } else {
        Ok(())
    }
}

/// What the manager's program is asked to do without a manager.
#[derive(Debug, PartialEq, Eq)]
pub enum OfflineCommand {
    ValidateSystem,
    ValidateUser { config_home: String, runtime_dir: String },
    CompileService { input: String, output: String },
}

/// What an [`OfflineCommand`] is.
#[verifier::ext_equal]
pub enum OfflineModel {
    ValidateSystem,
    ValidateUser { config_home: Seq<char>, runtime_dir: Seq<char> },
    CompileService { input: Seq<char>, output: Seq<char> },
}

impl View for OfflineCommand {
    type V = OfflineModel;

    open spec fn view(&self) -> OfflineModel {
        match *self {
            OfflineCommand::ValidateSystem => OfflineModel::ValidateSystem,
            OfflineCommand::ValidateUser { config_home, runtime_dir } =>
                OfflineModel::ValidateUser { config_home: config_home@, runtime_dir: runtime_dir@ },
            OfflineCommand::CompileService { input, output } => OfflineModel::CompileService {
                input: input@,
                output: output@,
            },
        }
    }
}

/// What a command asks for, or why it is refused.
pub open spec fn offline_result(
    command: Seq<char>,
    mode: ManagerMode,
    config_home: Option<Seq<char>>,
    runtime_dir: Option<Seq<char>>,
    input: Option<Seq<char>>,
    output: Option<Seq<char>>,
) -> Result<OfflineModel, Seq<char>> {
    if command == "validate"@ {
        match mode {
            ManagerMode::System => Ok(OfflineModel::ValidateSystem),
            ManagerMode::User => match (config_home, runtime_dir) {
                (None, _) => Err("validate --user requires --config-home"@),
                (Some(_), None) => Err("validate --user requires --runtime-dir"@),
                (Some(config_home), Some(runtime_dir)) => Ok(
                    OfflineModel::ValidateUser { config_home, runtime_dir },
                ),
            },
        }
    } else if command == "compile-service"@ {
        match (input, output) {
            (None, _) => Err("compile-service requires --from-sage FILE"@),
            (Some(_), None) => Err("compile-service requires --output FILE or -"@),
            (Some(input), Some(output)) => Ok(OfflineModel::CompileService { input, output }),
        }
    } else {
        Err("unknown loom command "@ + command)
    }
}

/// What the manager's program is asked to do without a manager.
pub fn offline_command(
    command: &str,
    mode: ManagerMode,
    config_home: &Option<String>,
    runtime_dir: &Option<String>,
    input: &Option<String>,
    output: &Option<String>,
) -> (r: Result<OfflineCommand, String>)
    ensures
        (match r {
            Ok(command) => Ok::<OfflineModel, Seq<char>>(command@),
            Err(reason) => Err(reason@),
        }) == offline_result(
            command@,
            mode,
            text::optional_text(*config_home),
            text::optional_text(*runtime_dir),
            text::optional_text(*input),
            text::optional_text(*output),
        ),
{
    if text::same_text(command, "validate") {
        if mode == ManagerMode::System {
            return Ok(OfflineCommand::ValidateSystem);
        }
        match config_home {
            None => Err(text::owned("validate --user requires --config-home")),
            Some(home) => match runtime_dir {
                None => Err(text::owned("validate --user requires --runtime-dir")),
                Some(directory) => Ok(
                    OfflineCommand::ValidateUser {
                        config_home: text::owned(home.as_str()),
                        runtime_dir: text::owned(directory.as_str()),
                    },
                ),
            },
        }
    } else if text::same_text(command, "compile-service") {
        match input {
            None => Err(text::owned("compile-service requires --from-sage FILE")),
            Some(input) => match output {
                None => Err(text::owned("compile-service requires --output FILE or -")),
                Some(output) => Ok(
                    OfflineCommand::CompileService {
                        input: text::owned(input.as_str()),
                        output: text::owned(output.as_str()),
                    },
                ),
            },
        }
    } else {
        Err(text::concat2("unknown loom command ", command))
    }
}

/// What a command is called: the operation that a name stands for is called by that name.
pub open spec fn called(operation: Operation, name: Seq<char>) -> bool {
    match operation {
        Operation::Start => name == "start"@,
        Operation::Stop => name == "stop"@,
        Operation::Restart => name == "restart"@,
        Operation::ReloadService => name == "reload-service"@,
        Operation::Status => name == "status"@,
        Operation::List => name == "list"@,
        Operation::IsActive => name == "is-active"@,
        Operation::IsEnabled => name == "is-enabled"@,
        Operation::Dependencies => name == "dependencies"@,
        Operation::Enable => name == "enable"@,
        Operation::Disable => name == "disable"@,
        Operation::Reload => name == "reload"@,
        Operation::Apply => name == "apply"@,
        Operation::ResetFailed => name == "reset-failed"@,
        Operation::Timings => name == "timings"@,
        Operation::CriticalPath => name == "critical-path"@,
        Operation::Reboot => name == "reboot"@,
        Operation::Poweroff => name == "poweroff"@,
        Operation::ApplyDryRun => false,
        Operation::StopForce => false,
    }
}

/// What operation a name stands for: the one that is called by it, and none where none is.
pub proof fn operation_law(name: Seq<char>, operation: Operation)
    ensures
        operation_of(name) == Some(operation) ==> called(operation, name),
        called(operation, name) ==> operation_of(name) is Some,
{
}

/// What options do to a command: trying it out goes with applying alone and force with
/// stopping alone, and then it is the operation of that sort; without options it is the
/// operation that it names.
pub proof fn option_law(command: Seq<char>, dry_run: bool, force: bool)
    ensures
        match operation_result(command, dry_run, force) {
            Ok(operation) => {
                &&& !dry_run && !force ==> operation_of(command) == Some(operation)
                &&& operation == Operation::ApplyDryRun <==> dry_run
                &&& operation == Operation::StopForce <==> force
                &&& dry_run ==> !force && operation_of(command) == Some(Operation::Apply)
                &&& force ==> operation_of(command) == Some(Operation::Stop)
            },
            Err(_) => {
                ||| operation_of(command) is None
                ||| dry_run && operation_of(command) != Some(Operation::Apply)
                ||| force && operation_of(command) != Some(Operation::Stop)
            },
        },
        operation_of(command) != Some(Operation::ApplyDryRun),
        operation_of(command) != Some(Operation::StopForce),
{
}

/// Which commands take a name: the questions after one service, and the changes of one, must
/// have it; the status may have it; and no other has one. Only enabling and disabling can be
/// asked for at once.
pub proof fn target_law(operation: Operation, named: bool, now: bool)
    ensures
        ({
            let must = operation == Operation::Start || operation == Operation::Stop || operation
                == Operation::StopForce || operation == Operation::Restart || operation
                == Operation::ReloadService || operation == Operation::IsActive || operation
                == Operation::IsEnabled || operation == Operation::Dependencies || operation
                == Operation::Enable || operation == Operation::Disable || operation
                == Operation::ResetFailed;
            let may = operation == Operation::Status;
            let at_once = operation == Operation::Enable || operation == Operation::Disable;
            target_error(operation, named, now) is None <==> (named ==> must || may) && (must
                ==> named) && (now ==> at_once)
        }),
{
}

/// What a command exits with: zero exactly for success, one for a failure of a service or of
/// the manager, two for a request that cannot be served, three for one that is not allowed,
/// four where there is no manager, and five where time has run out.
pub proof fn code_law(status: StatusCode)
    ensures
        code_of(status) == 0 <==> status == StatusCode::Success,
        code_of(status) == 1 <==> status == StatusCode::ServiceFailure || status
            == StatusCode::Internal,
        code_of(status) == 2 <==> status == StatusCode::InvalidRequest || status
            == StatusCode::NotFound || status == StatusCode::Conflict,
        code_of(status) == 3 <==> status == StatusCode::PermissionDenied,
        code_of(status) == 4 <==> status == StatusCode::ManagerUnavailable,
        code_of(status) == 5 <==> status == StatusCode::Timeout,
{
}

/// What is written of an answer: its payload as it is, and at the end of an answer that has
/// any a newline where it ends with none.
pub proof fn shown_law(packet: PacketModel)
    ensures
        packet.more || packet.payload.len() == 0 ==> shown_payload(packet) == packet.payload,
        !packet.more && packet.payload.len() > 0 ==> shown_payload(packet).last() == 0x0a,
        shown_payload(packet) == packet.payload || shown_payload(packet) == packet.payload.push(
            0x0a,
        ) && packet.payload.last() != 0x0a,
{
}

/// Which runtime directory is meant: one that is given, whoever asks; else that of the session
/// for a user, who has none without one, and `run` below the root for the system.
pub proof fn runtime_directory_law(
    given: Seq<char>,
    session: Option<Seq<char>>,
    root: Seq<char>,
    user: bool,
)
    ensures
        runtime_directory_of(user, Some(given), session, root) == Some(given),
        runtime_directory_of(true, None, session, root) == session,
        runtime_directory_of(false, None, session, root) == Some(loader::joined(root, "run"@)),
{
}

/// Which configuration directory is meant: one that is given, else that of the session, else
/// `.config` below the home directory, and none without any of these.
pub proof fn config_home_law(given: Seq<char>, around: Surroundings)
    ensures
        config_home_of(Some(given), around) == Some(given),
        match (around.config_home, around.home) {
            (Some(directory), _) => config_home_of(None, around) == Some(directory@),
            (None, Some(home)) => config_home_of(None, around) == Some(
                loader::joined(home@, ".config"@),
            ),
            (None, None) => config_home_of(None, around) is None,
        },
{
}

/// What is done without a manager: a configuration is checked, a user's only with both of its
/// directories, or a service is compiled from the named input to the named output; there is
/// nothing else.
pub proof fn offline_law(
    command: Seq<char>,
    mode: ManagerMode,
    config_home: Option<Seq<char>>,
    runtime_dir: Option<Seq<char>>,
    input: Option<Seq<char>>,
    output: Option<Seq<char>>,
)
    ensures
        match offline_result(command, mode, config_home, runtime_dir, input, output) {
            Ok(OfflineModel::ValidateSystem) => command == "validate"@ && mode
                == ManagerMode::System,
            Ok(OfflineModel::ValidateUser { config_home: home, runtime_dir: directory }) => command
                == "validate"@ && mode == ManagerMode::User && config_home == Some(home)
                && runtime_dir == Some(directory),
            Ok(OfflineModel::CompileService { input: from, output: to }) => command
                == "compile-service"@ && input == Some(from) && output == Some(to),
            Err(_) => {
                ||| command != "validate"@ && command != "compile-service"@
                ||| command == "validate"@ && mode == ManagerMode::User && (config_home is None
                    || runtime_dir is None)
                ||| command == "compile-service"@ && (input is None || output is None)
            },
        },
{
}

} // verus!
