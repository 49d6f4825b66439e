//! What is said: the words of errors and of answers, and what they name.

use vstd::prelude::*;

use crate::config_edit;
use crate::config_edit::EditErrorModel;
use crate::control;
use crate::identity;
use crate::identity::IdentityErrorModel;
use crate::lifecycle::EngineModel;
use crate::linux;
use crate::linux::ProcessError;
use crate::loader;
use crate::loader::LoadErrorModel;
use crate::manager;
use crate::manager::ManagerErrorModel;
use crate::model;
use crate::model::ErrorModel;
use crate::pending;
use crate::pending::PendingKindModel;
use crate::protocol;
use crate::protocol::{Operation, ProtocolError, StatusCode};
use crate::request;
use crate::request::RequestContext;
use crate::runtime;
use crate::runtime::RuntimeErrorModel;
use crate::sage;
use crate::sage::SageErrorModel;
use crate::supervise::ServiceAction;
use crate::text;

verus! {

/// What a refused configuration is told: what is wrong, and of what.
pub proof fn config_words_law(
    a: Seq<char>,
    b: Seq<char>,
    c: Seq<char>,
    found: u32,
    ids: Seq<Seq<char>>,
)
    ensures
        model::error_message(ErrorModel::InvalidServiceId(a)) == "invalid service identifier "@
            + text::debug_quoted(a),
        model::error_message(ErrorModel::InvalidServicePath(a))
            == "service path must end in a valid .toml filename: "@ + a,
        model::error_message((ErrorModel::UnsupportedSchema { found }))
            == "unsupported schema version "@ + text::decimal(found as nat)
            + "; supported version is 1"@,
        model::error_message((ErrorModel::InvalidField { field: a, reason: b })) == "invalid "@ + a
            + ": "@ + b,
        model::error_message(ErrorModel::DuplicateDefinition(a)) == "duplicate definition for "@
            + a,
        model::error_message(ErrorModel::AmbiguousDefinition(a))
            == "service and group share the identifier "@ + a,
        model::error_message(ErrorModel::MissingDefaultGroup(a)) == "default group "@ + a
            + " does not exist"@,
        model::error_message((ErrorModel::MissingDependency { owner: a, relation: b, target: c }))
            == a + " references missing "@ + b + " target "@ + c,
        model::error_message(ErrorModel::DependencyCycle(ids)) == "dependency cycle: "@
            + text::join(ids, " -> "@),
        model::error_message((ErrorModel::EnabledConflict { group: a, left: b, right: c }))
            == "group "@ + a + " activates conflicting nodes "@ + b + " and "@ + c,
        model::error_message(ErrorModel::Toml(a)) == "invalid TOML: "@ + a,
{
}

/// What is told where configuration cannot be loaded: the path, and the reason where there is
/// one.
pub proof fn load_words_law(path: Seq<char>, reason: Seq<char>, error: ErrorModel)
    ensures
        loader::load_error_message((LoadErrorModel::Inspect { path, reason }))
            == "failed to inspect "@ + path + ": "@ + reason,
        loader::load_error_message(LoadErrorModel::MissingManager(path))
            == "missing manager configuration "@ + path,
        loader::load_error_message((LoadErrorModel::Unsafe { path, reason }))
            == "unsafe configuration path "@ + path + ": "@ + reason,
        loader::load_error_message((LoadErrorModel::Read { path, reason })) == "failed to read "@
            + path + ": "@ + reason,
        loader::load_error_message(LoadErrorModel::NotUtf8(path)) == "configuration "@ + path
            + " is not UTF-8"@,
        loader::load_error_message(LoadErrorModel::Config(error)) == model::error_message(error),
{
}

/// What is told where an identity cannot be had: who is not known, or what may not be chosen.
pub proof fn identity_words_law(a: Seq<char>, b: Seq<char>, line: nat, m: u32, n: u32)
    ensures
        identity::identity_error_message((IdentityErrorModel::Read { path: a, source: b }))
            == "failed to read "@ + a + ": "@ + b,
        identity::identity_error_message(
            (IdentityErrorModel::InvalidEntry { file: a, line, reason: b }),
        ) == "invalid "@ + a + " entry on line "@ + text::decimal(line) + ": "@ + b,
        identity::identity_error_message(IdentityErrorModel::UnknownUser(a)) == "unknown user "@
            + a,
        identity::identity_error_message(IdentityErrorModel::UnknownUid(m)) == "unknown UID "@
            + text::decimal(m as nat),
        identity::identity_error_message(IdentityErrorModel::UnknownGroup(a)) == "unknown group "@
            + a,
        identity::identity_error_message(IdentityErrorModel::UnknownGid(m)) == "unknown GID "@
            + text::decimal(m as nat),
        identity::identity_error_message(
            (IdentityErrorModel::UserUidMismatch { requested: m, manager: n }),
        ) == "user service cannot select UID "@ + text::decimal(m as nat) + "; manager UID is "@
            + text::decimal(n as nat),
        identity::identity_error_message(
            (IdentityErrorModel::UserGidMismatch { requested: m, manager: n }),
        ) == "user service cannot select GID "@ + text::decimal(m as nat) + "; manager GID is "@
            + text::decimal(n as nat),
{
}

/// What is told where the engine or the manager refuses.
pub proof fn manager_words_law(
    a: Seq<char>,
    denied: bool,
    load: LoadErrorModel,
    who: IdentityErrorModel,
    run: RuntimeErrorModel,
    edit: EditErrorModel,
)
    ensures
        runtime::runtime_error_message(RuntimeErrorModel::UnknownTarget(a))
            == "unknown service or group "@ + a,
        runtime::runtime_error_message(RuntimeErrorModel::NotService(a))
            == "operation requires a service, not group "@ + a,
        runtime::runtime_error_message(RuntimeErrorModel::DefinitionChange)
            == "reload changes service definitions; use a full apply"@,
        runtime::runtime_error_message(RuntimeErrorModel::ApplyInProgress)
            == "another configuration apply is already in progress"@,
        manager::manager_error_message(ManagerErrorModel::Config(load))
            == loader::load_error_message(load),
        manager::manager_error_message(ManagerErrorModel::Identity(who))
            == identity::identity_error_message(who),
        manager::manager_error_message((ManagerErrorModel::Io { denied, reason: a }))
            == "Linux manager IO failed: "@ + a,
        manager::manager_error_message(ManagerErrorModel::Runtime(run))
            == "runtime operation failed: "@ + runtime::runtime_error_message(run),
        manager::manager_error_message(ManagerErrorModel::InvalidOptions(a))
            == "invalid manager options: "@ + a,
        manager::manager_error_message(ManagerErrorModel::InvalidTarget(a))
            == "invalid service target "@ + text::debug_quoted(a),
        manager::manager_error_message(ManagerErrorModel::Edit(edit))
            == config_edit::edit_error_message(edit),
        config_edit::edit_error_message(EditErrorModel::Parse(a)) == "manager TOML is invalid: "@
            + a,
        config_edit::edit_error_message(EditErrorModel::MissingDefaultGroup)
            == "manager TOML is missing string default_group"@,
        config_edit::edit_error_message(EditErrorModel::MissingWants(a))
            == "manager TOML is missing [groups."@ + a + "].wants array"@,
{
}

/// What is told where a service cannot be compiled.
pub proof fn compile_words_law(a: Seq<char>, b: Seq<char>, found: u32, error: ErrorModel)
    ensures
        sage::sage_error_message(SageErrorModel::Parse(a)) == "invalid Sage service TOML: "@ + a,
        sage::sage_error_message(SageErrorModel::Schema(found))
            == "unsupported Sage service schema "@ + text::decimal(found as nat),
        sage::sage_error_message((SageErrorModel::Invalid { field: a, reason: b }))
            == "invalid Sage service "@ + a + ": "@ + b,
        sage::sage_error_message(SageErrorModel::Serialize(a))
            == "failed to serialize native service: "@ + a,
        sage::sage_error_message(SageErrorModel::Generated(error))
            == "generated native service is invalid: "@ + model::error_message(error),
{
}

/// What is told of bytes that are no packet.
pub proof fn protocol_words_law(m: usize, n: usize, x: u32, y: u16)
    ensures
        protocol::protocol_error_message((ProtocolError::Truncated { expected: m, actual: n }))
            == "packet is truncated: expected at least "@ + text::decimal(m as nat)
            + " bytes, got "@ + text::decimal(n as nat),
        protocol::protocol_error_message(ProtocolError::InvalidMagic(x))
            == "invalid protocol magic 0x"@ + text::hex8(x as nat),
        protocol::protocol_error_message(ProtocolError::UnsupportedVersion(y))
            == "unsupported protocol version "@ + text::decimal(y as nat),
        protocol::protocol_error_message(ProtocolError::InvalidMessageKind(y))
            == "invalid message kind "@ + text::decimal(y as nat),
        protocol::protocol_error_message(ProtocolError::InvalidOperation(y))
            == "invalid operation "@ + text::decimal(y as nat),
        protocol::protocol_error_message(ProtocolError::InvalidStatus(y)) == "invalid status code "@
            + text::decimal(y as nat),
        protocol::protocol_error_message(ProtocolError::ReservedBits)
            == "reserved protocol bits are non-zero"@,
        protocol::protocol_error_message(ProtocolError::PayloadTooLarge(m))
            == "payload is too large: "@ + text::decimal(m as nat) + " bytes"@,
        protocol::protocol_error_message(ProtocolError::PacketTooLarge(m))
            == "packet is too large: "@ + text::decimal(m as nat) + " bytes"@,
        protocol::protocol_error_message((ProtocolError::LengthMismatch { declared: m, actual: n }))
            == "payload length mismatch: declared "@ + text::decimal(m as nat) + ", received "@
            + text::decimal(n as nat),
{
}

/// What is told where a process cannot be made or looked after: which, and why.
pub proof fn process_words_law(error: ProcessError)
    ensures
        linux::process_error_message(error) == match error {
            ProcessError::PrepareIo { stream, reason } => "failed to prepare "@ + stream@ + ": "@
                + reason@,
            ProcessError::NotifySocket(reason) => "failed to create readiness socket: "@ + reason@,
            ProcessError::Spawn(reason) => "failed to spawn process: "@ + reason@,
            ProcessError::Pidfd { pid, reason } => "pidfd_open failed for PID "@ + text::decimal(
                pid as nat,
            ) + ": "@ + reason@,
            ProcessError::InvalidPid(pid) => "PID "@ + text::decimal(pid as nat)
                + " does not fit Linux pid_t"@,
            ProcessError::Signal { pid, reason } => "failed to signal process group "@
                + text::decimal(pid as nat) + ": "@ + reason@,
            ProcessError::Wait { pid, reason } => "failed to wait for PID "@ + text::decimal(
                pid as nat,
            ) + ": "@ + reason@,
        },
{
}

/// What a request that has waited is told, besides its status.
pub proof fn answer_words_law(e: EngineModel, kind: PendingKindModel)
    ensures
        pending::result_of(e, kind) matches Some((status, words)) ==> match kind {
            PendingKindModel::Start { .. } => words == if status == StatusCode::Success {
                "active"@
            } else {
                "service failed"@
            },
            PendingKindModel::Apply(_) => words == if status == StatusCode::Success {
                "active"@
            } else {
                "service failed"@
            },
            PendingKindModel::Action { .. } => words == if status == StatusCode::Success {
                "completed"@
            } else {
                "action failed"@
            },
            PendingKindModel::Stop(_) => words == "inactive"@,
            PendingKindModel::Restart { .. } => words == if status == StatusCode::Success {
                "restarted"@
            } else {
                "restart failed"@
            },
        },
{
}

/// What a refused request is told: why.
pub proof fn refusal_words_law(operation: Operation, context: RequestContext)
    ensures
        request::refusal(operation, context) matches Some((status, words)) ==> {
            ||| status == StatusCode::PermissionDenied && words
                == "operation requires manager owner"@
            ||| status == StatusCode::Conflict && words == "shutdown in progress"@
                && context.shutting_down
            ||| status == StatusCode::Conflict && words == "apply in progress"@
                && context.apply_pending
            ||| status == StatusCode::Conflict && words == "one request is already pending"@
                && context.request_pending
        },
{
}

/// What a command is told that has no target, or one too many, or an option that does not go
/// with it.
pub proof fn command_words_law(operation: Operation, named: bool, now: bool, action: ServiceAction)
    ensures
        control::target_error(operation, named, now) matches Some(words) ==> {
            ||| !named && words == control::operation_label(operation)
                + " requires a service name"@
            ||| named && words == "unexpected service name"@
            ||| now && words == "--now is valid only with enable or disable"@
        },
        action == ServiceAction::Stop ==> action.label() == "stop"@,
        action == ServiceAction::Reload ==> action.label() == "reload"@,
{
}

} // verus!
