//! Control requests: which are admitted, what they are about, and how they are refused.

use vstd::prelude::*;

use crate::manager::{ManagerError, ManagerErrorModel, ManagerMode, ShutdownAction};
use crate::model;
use crate::model::ServiceId;
use crate::protocol;
use crate::protocol::{MessageKind, Operation, Packet, PacketModel, ProtocolError, StatusCode};
use crate::text;

verus! {

broadcast use vstd::string::group_string_axioms;

/// Whether an operation may change the manager or its services.
pub open spec fn mutating(operation: Operation) -> bool {
    !(operation == Operation::Status || operation == Operation::List || operation
        == Operation::IsActive || operation == Operation::IsEnabled || operation
        == Operation::Dependencies || operation == Operation::Timings || operation
        == Operation::CriticalPath || operation == Operation::ApplyDryRun)
}

/// Whether an operation may change the manager or its services.
pub fn is_mutating(operation: Operation) -> (r: bool)
    ensures
        r == mutating(operation),
{
    match operation {
        Operation::Status => false,
        Operation::List => false,
        Operation::IsActive => false,
        Operation::IsEnabled => false,
        Operation::Dependencies => false,
        Operation::Timings => false,
        Operation::CriticalPath => false,
        Operation::ApplyDryRun => false,
        _ => true,
    }
}

/// The state that decides whether a request is admitted.
#[derive(Clone, Copy, Debug, PartialEq, Eq, Structural)]
pub struct RequestContext {
    pub mode: ManagerMode,
    pub manager_uid: u32,
    pub client_uid: u32,
    pub shutting_down: bool,
    pub apply_pending: bool,
    pub request_pending: bool,
}

impl RequestContext {
    /// Whether the client may change the manager.
    pub open spec fn permitted(self) -> bool {
        self.client_uid == self.mode.owner(self.manager_uid)
    }
}

/// An answer in words.
#[derive(Debug, PartialEq, Eq)]
pub struct Reply {
    pub request_id: u64,
    pub operation: Operation,
    pub status: StatusCode,
    pub message: String,
}

/// What a [`Reply`] says.
#[verifier::ext_equal]
pub struct ReplyModel {
    pub request_id: u64,
    pub operation: Operation,
    pub status: StatusCode,
    pub message: Seq<char>,
}

impl View for Reply {
    type V = ReplyModel;

    open spec fn view(&self) -> ReplyModel {
        ReplyModel {
            request_id: self.request_id,
            operation: self.operation,
            status: self.status,
            message: self.message@,
        }
    }
}

/// What becomes of a packet from a client. The format of the answers changes with every
/// readable request.
#[derive(Debug, PartialEq, Eq)]
pub enum Admission {
    Unreadable(Reply),
    Refused { reply: Reply, format_toml: bool },
    Accepted { request: Packet, format_toml: bool },
}

/// What an [`Admission`] says.
#[verifier::ext_equal]
pub enum AdmissionModel {
    Unreadable(ReplyModel),
    Refused { reply: ReplyModel, format_toml: bool },
    Accepted { request: PacketModel, format_toml: bool },
}

impl View for Admission {
    type V = AdmissionModel;

    open spec fn view(&self) -> AdmissionModel {
        match *self {
            Admission::Unreadable(reply) => AdmissionModel::Unreadable(reply@),
            Admission::Refused { reply, format_toml } => AdmissionModel::Refused {
                reply: reply@,
                format_toml,
            },
            Admission::Accepted { request, format_toml } => AdmissionModel::Accepted {
                request: request@,
                format_toml,
            },
        }
    }
}

/// The beginning of a payload that asks for answers in TOML: `toml` and a newline.
pub open spec fn format_prefix() -> Seq<u8> {
    seq![116u8, 111u8, 109u8, 108u8, 10u8]
}

/// Whether a payload asks for answers in TOML.
pub open spec fn wants_toml(payload: Seq<u8>) -> bool {
    payload.len() >= 5 && payload.take(5) == format_prefix()
}

/// The payload without the request for answers in TOML.
pub open spec fn plain_payload(payload: Seq<u8>) -> Seq<u8> {
    if wants_toml(payload) {
        payload.skip(5)
    } else {
        payload
    }
}

/// Why a readable request is refused, as a status and a message, where it is. A user's
/// manager serves its own user alone.
pub open spec fn refusal(operation: Operation, context: RequestContext) -> Option<
    (StatusCode, Seq<char>),
> {
    if context.mode == ManagerMode::User && !context.permitted() {
        Some((StatusCode::PermissionDenied, "operation requires manager owner"@))
    } else if context.shutting_down && mutating(operation) {
        Some((StatusCode::Conflict, "shutdown in progress"@))
    } else if context.apply_pending && (mutating(operation) || operation
        == Operation::ApplyDryRun) {
        Some((StatusCode::Conflict, "apply in progress"@))
    } else if context.request_pending {
        Some((StatusCode::Conflict, "one request is already pending"@))
    } else if mutating(operation) && !context.permitted() {
        Some((StatusCode::PermissionDenied, "operation requires manager owner"@))
    } else {
        None
    }
}

/// The answer to a packet that holds no request.
pub open spec fn unreadable(message: Seq<char>) -> AdmissionModel {
    AdmissionModel::Unreadable(
        ReplyModel {
            request_id: 0,
            operation: Operation::Status,
            status: StatusCode::InvalidRequest,
            message,
        },
    )
}

/// What becomes of a packet.
pub open spec fn admission(
    packet: Result<PacketModel, ProtocolError>,
    context: RequestContext,
) -> AdmissionModel {
    match packet {
        Err(e) => unreadable(protocol::protocol_error_message(e)),
        Ok(request) => if request.kind != MessageKind::Request {
            unreadable("expected request packet"@)
        } else {
            let format_toml = wants_toml(request.payload);
            match refusal(request.operation, context) {
                Some((status, message)) => AdmissionModel::Refused {
                    reply: ReplyModel {
                        request_id: request.request_id,
                        operation: request.operation,
                        status,
                        message,
                    },
                    format_toml,
                },
                None => AdmissionModel::Accepted {
                    request: PacketModel { payload: plain_payload(request.payload), ..request },
                    format_toml,
                },
            }
        },
    }
}

fn asks_for_toml(payload: &Vec<u8>) -> (r: bool)
    ensures
        r == wants_toml(payload@),
{
    if payload.len() < 5 {
        return false;
    }
    let r = payload[0] == 116 && payload[1] == 111 && payload[2] == 109 && payload[3] == 108
        && payload[4] == 10;
    proof {
        let head = payload@.take(5);
        if r {
            assert(head =~= format_prefix());
        } else if head == format_prefix() {
            assert(head[0] == 116 && head[1] == 111 && head[2] == 109 && head[3] == 108 && head[4]
                == 10);
        }
    }
    r
}

fn refuse(operation: Operation, context: RequestContext) -> (r: Option<(StatusCode, &'static str)>)
    ensures
        match r {
            Some((status, message)) => refusal(operation, context) == Some((status, message@)),
            None => refusal(operation, context) is None,
        },
{
    let changes = is_mutating(operation);
    let owner = context.client_uid == context.mode.owner_uid(context.manager_uid);
    if context.mode == ManagerMode::User && !owner {
        Some((StatusCode::PermissionDenied, "operation requires manager owner"))
    } else if context.shutting_down && changes {
        Some((StatusCode::Conflict, "shutdown in progress"))
    } else if context.apply_pending && (changes || operation == Operation::ApplyDryRun) {
        Some((StatusCode::Conflict, "apply in progress"))
    } else if context.request_pending {
        Some((StatusCode::Conflict, "one request is already pending"))
    } else if changes && !owner {
        Some((StatusCode::PermissionDenied, "operation requires manager owner"))
    } else {
        None
    }
}

fn unreadable_reply(message: String) -> (r: Admission)
    ensures
        r@ == unreadable(message@),
{
    Admission::Unreadable(
        Reply {
            request_id: 0,
            operation: Operation::Status,
            status: StatusCode::InvalidRequest,
            message,
        },
    )
}

/// Decides what becomes of a packet from a client. During a shutdown and while a
/// configuration waits nothing is admitted that changes anything; a client has one request
/// at a time; only the owner may change anything; and a user's manager admits nothing of
/// another user.
pub fn screen(encoded: &[u8], context: RequestContext) -> (r: Admission)
    ensures
        r@ == admission(protocol::decoded(encoded@), context),
{
    let mut request = match Packet::decode(encoded) {
        Ok(request) => request,
        Err(e) => return unreadable_reply(e.message()),
    };
    if request.kind != MessageKind::Request {
        return unreadable_reply(text::owned("expected request packet"));
    }
    let format_toml = asks_for_toml(&request.payload);
    match refuse(request.operation, context) {
        Some((status, message)) => Admission::Refused {
            reply: Reply {
                request_id: request.request_id,
                operation: request.operation,
                status,
                message: text::owned(message),
            },
            format_toml,
        },
        None => {
            if format_toml {
                let payload = protocol::bytes_between(
                    request.payload.as_slice(),
                    5,
                    request.payload.len(),
                );
                proof {
                    assert(payload@ =~= request.payload@.skip(5));
                }
                request.payload = payload;
            }
            Admission::Accepted { request, format_toml }
        },
    }
}

/// Nothing is admitted that changes anything during a shutdown, while a configuration
/// waits, or for another than the owner.
pub proof fn admission_law(
    packet: Result<PacketModel, ProtocolError>,
    context: RequestContext,
    request: PacketModel,
    format_toml: bool,
)
    requires
        admission(packet, context) == (AdmissionModel::Accepted { request, format_toml }),
        mutating(request.operation),
    ensures
        !context.shutting_down,
        !context.apply_pending,
        !context.request_pending,
        context.permitted(),
{
}

/// A user's manager admits nothing of another user.
pub proof fn owner_law(
    packet: Result<PacketModel, ProtocolError>,
    context: RequestContext,
    request: PacketModel,
    format_toml: bool,
)
    requires
        admission(packet, context) == (AdmissionModel::Accepted { request, format_toml }),
        context.mode == ManagerMode::User,
    ensures
        context.client_uid == context.manager_uid,
{
}

/// Which part of the manager serves an operation.
#[derive(Clone, Copy, Debug, PartialEq, Eq, Structural)]
pub enum Route {
    Lifecycle,
    Query,
    Configuration,
    Shutdown(ShutdownAction),
    Unsupported,
}

/// Which part of the manager serves an operation; only the system manager shuts the
/// machine down.
pub open spec fn routed(operation: Operation, mode: ManagerMode) -> Route {
    match operation {
        Operation::Start | Operation::Stop | Operation::StopForce | Operation::Restart
        | Operation::ReloadService => Route::Lifecycle,
        Operation::Status | Operation::List | Operation::IsActive | Operation::IsEnabled
        | Operation::Dependencies | Operation::Timings | Operation::CriticalPath => Route::Query,
        Operation::Enable | Operation::Disable | Operation::Reload | Operation::Apply
        | Operation::ApplyDryRun | Operation::ResetFailed => Route::Configuration,
        Operation::Reboot => if mode == ManagerMode::System {
            Route::Shutdown(ShutdownAction::Reboot)
        } else {
            Route::Unsupported
        },
        Operation::Poweroff => if mode == ManagerMode::System {
            Route::Shutdown(ShutdownAction::Poweroff)
        } else {
            Route::Unsupported
        },
    }
}

/// Which part of the manager serves an operation.
pub fn route(operation: Operation, mode: ManagerMode) -> (r: Route)
    ensures
        r == routed(operation, mode),
{
    match operation {
        Operation::Start | Operation::Stop | Operation::StopForce | Operation::Restart
        | Operation::ReloadService => Route::Lifecycle,
        Operation::Status | Operation::List | Operation::IsActive | Operation::IsEnabled
        | Operation::Dependencies | Operation::Timings | Operation::CriticalPath => Route::Query,
        Operation::Enable | Operation::Disable | Operation::Reload | Operation::Apply
        | Operation::ApplyDryRun | Operation::ResetFailed => Route::Configuration,
        Operation::Reboot => if mode == ManagerMode::System {
            Route::Shutdown(ShutdownAction::Reboot)
        } else {
            Route::Unsupported
        },
        Operation::Poweroff => if mode == ManagerMode::System {
            Route::Shutdown(ShutdownAction::Poweroff)
        } else {
            Route::Unsupported
        },
    }
}

/// The name that a text holds, once spaces around it are gone, or the refusal of the text.
pub open spec fn name_result(target: Seq<char>) -> Result<Seq<char>, ManagerErrorModel> {
    if model::valid_identifier(text::trim(target)) {
        Ok(text::trim(target))
    } else {
        Err(ManagerErrorModel::InvalidTarget(target))
    }
}

/// The name that a payload holds, or the refusal of the payload.
pub open spec fn target_result(payload: Seq<u8>) -> Result<Seq<char>, ManagerErrorModel> {
    match text::utf8(payload) {
        None => Err(ManagerErrorModel::InvalidTarget(text::lossy(payload))),
        Some(target) => name_result(target),
    }
}

/// What a result about a name holds.
pub open spec fn name_outcome(r: Result<ServiceId, ManagerError>) -> Result<
    Seq<char>,
    ManagerErrorModel,
> {
    match r {
        Ok(id) => Ok(id@),
        Err(e) => Err(e@),
    }
}

fn named(target: &str) -> (r: Result<ServiceId, ManagerError>)
    ensures
        name_outcome(r) == name_result(target@),
{
    let name = text::trim_string(target);
    match ServiceId::new(name.as_str()) {
        Ok(id) => Ok(id),
        Err(_) => Err(ManagerError::InvalidTarget(text::owned(target))),
    }
}

/// The service or group that a payload names.
pub fn payload_target(payload: &Vec<u8>) -> (r: Result<ServiceId, ManagerError>)
    ensures
        name_outcome(r) == target_result(payload@),
{
    match text::utf8_text(payload.as_slice()) {
        None => Err(ManagerError::InvalidTarget(text::lossy_text(payload.as_slice()))),
        Some(target) => named(target.as_str()),
    }
}

/// The service that a payload names and whether the change is to be made at once, or the
/// refusal of the payload.
pub open spec fn enabled_result(payload: Seq<u8>) -> Result<(Seq<char>, bool), ManagerErrorModel> {
    match text::utf8(payload) {
        None => Err(ManagerErrorModel::InvalidTarget(text::lossy(payload))),
        Some(given) => {
            let now = text::has_prefix(given, "now\n"@);
            let target = if now {
                given.skip("now\n"@.len() as int)
            } else {
                given
            };
            match name_result(target) {
                Ok(name) => Ok((name, now)),
                Err(e) => Err(e),
            }
        },
    }
}

/// The service that a payload names, and whether the change is to be made at once.
pub fn enabled_payload(payload: &Vec<u8>) -> (r: Result<(ServiceId, bool), ManagerError>)
    ensures
        (match r {
            Ok((id, now)) => Ok::<(Seq<char>, bool), ManagerErrorModel>((id@, now)),
            Err(e) => Err(e@),
        }) == enabled_result(payload@),
{
    match text::utf8_text(payload.as_slice()) {
        None => Err(ManagerError::InvalidTarget(text::lossy_text(payload.as_slice()))),
        Some(given) => match text::strip_prefix(given.as_str(), "now\n") {
            Some(target) => match named(target.as_str()) {
                Ok(id) => Ok((id, true)),
                Err(e) => Err(e),
            },
            None => match named(given.as_str()) {
                Ok(id) => Ok((id, false)),
                Err(e) => Err(e),
            },
        },
    }
}

/// Which operations change something: all but those that only ask, and a change that is only
/// tried.
pub proof fn mutating_law(operation: Operation)
    ensures
        mutating(operation) <==> {
            ||| operation == Operation::Start
            ||| operation == Operation::Stop
            ||| operation == Operation::StopForce
            ||| operation == Operation::Restart
            ||| operation == Operation::ReloadService
            ||| operation == Operation::Reload
            ||| operation == Operation::Enable
            ||| operation == Operation::Disable
            ||| operation == Operation::ResetFailed
            ||| operation == Operation::Apply
            ||| operation == Operation::Reboot
            ||| operation == Operation::Poweroff
        },
{
}

/// Who may change a manager: the superuser that of the system, and its user a user's.
pub proof fn permission_law(context: RequestContext)
    ensures
        context.mode == ManagerMode::System ==> (context.permitted() <==> context.client_uid == 0),
        context.mode == ManagerMode::User ==> (context.permitted() <==> context.client_uid
            == context.manager_uid),
{
}

/// Which requests are let in: a question of anybody is, where no other of this client waits,
/// except that a user's manager answers its own user alone. A change is let in where
/// besides it is the owner's, nothing is shutting down and no configuration waits. What is let
/// in keeps its number and its operation, and loses the request for an answer in TOML alone.
/// What is refused for its sender says so, and what is refused for the state is a conflict.
pub proof fn let_in_law(request: PacketModel, context: RequestContext)
    requires
        request.kind == MessageKind::Request,
    ensures
        ({
            let foreign = context.client_uid != (if context.mode == ManagerMode::System {
                0
            } else {
                context.manager_uid
            });
            let owned = context.mode == ManagerMode::User || mutating(request.operation);
            let touchy = mutating(request.operation) || request.operation
                == Operation::ApplyDryRun;
            let closed = context.shutting_down && mutating(request.operation)
                || context.apply_pending && touchy || context.request_pending;
            match admission(Ok(request), context) {
                AdmissionModel::Unreadable(_) => false,
                AdmissionModel::Accepted { request: kept, format_toml } => {
                    &&& !closed && !(foreign && owned)
                    &&& kept.request_id == request.request_id
                    &&& kept.operation == request.operation
                    &&& format_toml <==> wants_toml(request.payload)
                    &&& format_toml ==> request.payload == format_prefix() + kept.payload
                    &&& !format_toml ==> kept.payload == request.payload
                },
                AdmissionModel::Refused { reply, format_toml } => {
                    &&& closed || foreign && owned
                    &&& reply.request_id == request.request_id
                    &&& reply.operation == request.operation
                    &&& format_toml <==> wants_toml(request.payload)
                    &&& reply.status == StatusCode::PermissionDenied || reply.status
                        == StatusCode::Conflict
                    &&& reply.status == StatusCode::PermissionDenied ==> foreign && owned
                    &&& reply.status == StatusCode::Conflict ==> closed
                    &&& !closed ==> reply.status == StatusCode::PermissionDenied
                    &&& foreign && context.mode == ManagerMode::User ==> reply.status
                        == StatusCode::PermissionDenied
                },
            }
        }),
{
    if wants_toml(request.payload) {
        assert(request.payload =~= request.payload.take(5) + request.payload.skip(5));
    }
}

/// What is no request is answered as such: with number zero and as an invalid request.
pub proof fn unreadable_law(packet: Result<PacketModel, ProtocolError>, context: RequestContext)
    ensures
        admission(packet, context) is Unreadable <==> match packet {
            Ok(request) => request.kind != MessageKind::Request,
            Err(_) => true,
        },
        admission(packet, context) matches AdmissionModel::Unreadable(reply) ==> reply.status
            == StatusCode::InvalidRequest && reply.request_id == 0,
{
}

/// Whose answer is wanted in TOML: that of a payload that begins with `toml` and a newline.
pub proof fn toml_law(payload: Seq<u8>)
    ensures
        wants_toml(payload) <==> {
            &&& payload.len() >= 5
            &&& payload[0] == 0x74
            &&& payload[1] == 0x6f
            &&& payload[2] == 0x6d
            &&& payload[3] == 0x6c
            &&& payload[4] == 0x0a
        },
{
    if payload.len() >= 5 && payload[0] == 0x74 && payload[1] == 0x6f && payload[2] == 0x6d
        && payload[3] == 0x6c && payload[4] == 0x0a {
        assert(payload.take(5) =~= format_prefix());
    }
    if wants_toml(payload) {
        assert(payload.take(5)[0] == payload[0]);
        assert(payload.take(5)[1] == payload[1]);
        assert(payload.take(5)[2] == payload[2]);
        assert(payload.take(5)[3] == payload[3]);
        assert(payload.take(5)[4] == payload[4]);
    }
}

/// Where a request goes: what only asks to the answers, a shutdown of the machine to nobody
/// in a user's manager, and every other change to the part that makes it.
pub proof fn route_law(operation: Operation, mode: ManagerMode)
    ensures
        routed(operation, mode) == Route::Query <==> !mutating(operation) && operation
            != Operation::ApplyDryRun,
        routed(operation, mode) == Route::Unsupported <==> mode == ManagerMode::User && (operation
            == Operation::Reboot || operation == Operation::Poweroff),
        routed(operation, mode) == Route::Shutdown(ShutdownAction::Reboot) <==> mode
            == ManagerMode::System && operation == Operation::Reboot,
        routed(operation, mode) == Route::Shutdown(ShutdownAction::Poweroff) <==> mode
            == ManagerMode::System && operation == Operation::Poweroff,
        routed(operation, mode) == Route::Lifecycle <==> operation == Operation::Start || operation
            == Operation::Stop || operation == Operation::StopForce || operation
            == Operation::Restart || operation == Operation::ReloadService,
{
}

/// What name a text holds: where an identifier stands in it with nothing but white space
/// around, that; otherwise none, and the refusal repeats the text.
pub proof fn name_law(target: Seq<char>)
    ensures
        match name_result(target) {
            Ok(name) => name == text::trim(target) && model::valid_identifier(name),
            Err(e) => e == ManagerErrorModel::InvalidTarget(target) && !model::valid_identifier(
                text::trim(target),
            ),
        },
{
}

/// A change that is to be made at once says so before the name, on a line of its own: the name
/// is the same with and without that line.
pub proof fn now_law(plain: Seq<u8>, marked: Seq<u8>, name: Seq<char>)
    requires
        model::valid_identifier(name),
        text::utf8(plain) == Some(name),
        text::utf8(marked) == Some("now\n"@ + name),
    ensures
        enabled_result(plain) == Ok::<(Seq<char>, bool), ManagerErrorModel>((name, false)),
        enabled_result(marked) == Ok::<(Seq<char>, bool), ManagerErrorModel>((name, true)),
        target_result(plain) == Ok::<Seq<char>, ManagerErrorModel>(name),
{
    reveal_strlit("now\n");
    model::identifier_law(name);
    assert(!text::is_space(name[0]));
    assert(!text::is_space(name[name.len() - 1]));
    text::trim_law(name);
    let line = "now\n"@;
    if text::has_prefix(name, line) {
        assert(name.take(4)[3] == name[3]);
        assert(name[3] == '\n');
    }
    assert((line + name).take(4) =~= line);
    assert((line + name).skip(4) =~= name);
}

} // verus!
