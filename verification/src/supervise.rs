//! Processes and helpers of services: what they are run with, and what their ends and
//! messages mean.

use vstd::prelude::*;

use crate::catalog;
use crate::environment;
use crate::environment::Environment;
use crate::identity::ResolvedAccount;
use crate::lifecycle;
use crate::lifecycle::EventModel;
use crate::linux::NotificationRead;
use crate::manager::{ManagerError, ManagerErrorModel, ManagerMode};
use crate::model::{
    ProcessDefinition, Readiness, ResolvedIdentity, ServiceDefinition, ServiceId, ServiceModel,
};
use crate::pending;
use crate::protocol::StatusCode;
use crate::runtime::{
    ExitOutcome, RuntimeEffect, RuntimeEngine, RuntimeError, RuntimeErrorModel, RuntimeEvent,
    TimerKind,
};
use crate::text;

verus! {

broadcast use vstd::string::group_string_axioms;

/// The search path of system services.
pub const SYSTEM_PATH: &'static str =
    "/usr/local/sbin:/usr/local/bin:/usr/sbin:/usr/bin:/sbin:/bin";

/// The variable that names the readiness socket.
pub const NOTIFY_VARIABLE: &'static str = "LOOM_NOTIFY_FD";

/// The variables that every service of a manager begins with: a fixed search path for
/// the system manager, the manager's own variables, but for the one of the readiness
/// socket, for a user manager.
pub fn base_environment(mode: ManagerMode, own: &Vec<(String, String)>) -> (r: Environment)
    ensures
        r.well_formed(),
        r@ == (match mode {
            ManagerMode::System => seq![("PATH"@, SYSTEM_PATH@)],
            ManagerMode::User => captured(environment::entry_texts(own@), own@.len()),
        }),
{
    let mut r = Environment::new();
    match mode {
        ManagerMode::System => {
            r.insert("PATH", SYSTEM_PATH);
        },
        ManagerMode::User => {
            let ghost all = environment::entry_texts(own@);
            let mut i: usize = 0;
            while i < own.len()
                invariant
                    all == environment::entry_texts(own@),
                    i <= own@.len(),
                    r.well_formed(),
                    r@ == captured(all, i as nat),
                decreases own@.len() - i,
            {
                proof {
                    assert(all[i as int] == (own@[i as int].0@, own@[i as int].1@));
                }
                if !text::same_text(own[i].0.as_str(), NOTIFY_VARIABLE) {
                    r.insert(own[i].0.as_str(), own[i].1.as_str());
                }
                i = i + 1;
            }
        },
    }
    r
}

/// The first `n` variables, but for the one of the readiness socket.
pub open spec fn captured(own: Seq<(Seq<char>, Seq<char>)>, n: nat) -> Seq<
    (Seq<char>, Seq<char>),
>
    decreases n,
{
    if n == 0 {
        Seq::empty()
    } else {
        let before = captured(own, (n - 1) as nat);
        if own[n - 1].0 == NOTIFY_VARIABLE@ {
            before
        } else {
            environment::env_set(before, own[n - 1].0, own[n - 1].1)
        }
    }
}

/// The variables of an account.
pub open spec fn account_environment(
    base: Seq<(Seq<char>, Seq<char>)>,
    account: ResolvedAccount,
) -> Seq<(Seq<char>, Seq<char>)> {
    environment::env_set(
        environment::env_set(
            environment::env_set(
                environment::env_set(base, "HOME"@, account.home@),
                "USER"@,
                account.name@,
            ),
            "LOGNAME"@,
            account.name@,
        ),
        "SHELL"@,
        account.shell@,
    )
}

/// The variables with the first `n` of others set over them.
pub open spec fn overlaid(
    base: Seq<(Seq<char>, Seq<char>)>,
    more: Seq<(Seq<char>, Seq<char>)>,
    n: nat,
) -> Seq<(Seq<char>, Seq<char>)>
    decreases n,
{
    if n == 0 {
        base
    } else {
        environment::env_set(
            overlaid(base, more, (n - 1) as nat),
            more[n - 1].0,
            more[n - 1].1,
        )
    }
}

/// What a process is run with.
#[derive(Debug)]
pub struct SpawnPlan {
    pub command: Vec<String>,
    pub environment: Environment,
    pub identity: Option<ResolvedIdentity>,
    pub notify: bool,
}

fn account_variables(base: &Environment, account: &ResolvedAccount) -> (r: Environment)
    requires
        base.well_formed(),
    ensures
        r.well_formed(),
        r@ == account_environment(base@, *account),
{
    let mut r = base.copy();
    r.insert("HOME", account.home.as_str());
    r.insert("USER", account.name.as_str());
    r.insert("LOGNAME", account.name.as_str());
    r.insert("SHELL", account.shell.as_str());
    r
}

fn overlay(base: Environment, more: &Environment) -> (r: Environment)
    requires
        base.well_formed(),
    ensures
        r.well_formed(),
        r@ == overlaid(base@, more@, more@.len()),
{
    let mut r = base;
    let ghost start = r@;
    let mut i: usize = 0;
    while i < more.len()
        invariant
            i <= more@.len(),
            r.well_formed(),
            r@ == overlaid(start, more@, i as nat),
        decreases more@.len() - i,
    {
        r.insert(more.key(i), more.value(i));
        i = i + 1;
    }
    r
}

fn chosen_identity(mode: ManagerMode, identity: &ResolvedIdentity) -> (r: Option<ResolvedIdentity>)
    ensures
        match r {
            Some(chosen) => mode == ManagerMode::System && chosen.uid == identity.uid && chosen.gid
                == identity.gid && chosen.supplementary_groups@ == identity.supplementary_groups@,
            None => mode == ManagerMode::User,
        },
{
    match mode {
        ManagerMode::System => Some(
            ResolvedIdentity {
                uid: identity.uid,
                gid: identity.gid,
                supplementary_groups: identity.supplementary_groups.clone(),
            },
        ),
        ManagerMode::User => None,
    }
}

/// What the process of a service is run with: its command; the manager's variables, those
/// of the account, and its own over them; and its account, unless a user manager runs it,
/// which keeps its own.
pub fn plan_spawn(
    process: &ProcessDefinition,
    account: &ResolvedAccount,
    mode: ManagerMode,
    base: &Environment,
) -> (r: SpawnPlan)
    requires
        base.well_formed(),
    ensures
        text::texts(r.command@) == process@.command,
        r.environment.well_formed(),
        r.environment@ == overlaid(
            account_environment(base@, *account),
            process@.environment,
            process@.environment.len(),
        ),
        r.notify == (process@.readiness == Readiness::Notify),
        match r.identity {
            Some(identity) => mode == ManagerMode::System && identity.uid == account.identity.uid
                && identity.gid == account.identity.gid && identity.supplementary_groups@
                == account.identity.supplementary_groups@,
            None => mode == ManagerMode::User,
        },
{
    let variables = account_variables(base, account);
    SpawnPlan {
        command: text::clone_strings(&process.command),
        environment: overlay(variables, &process.environment),
        identity: chosen_identity(mode, &account.identity),
        notify: process.readiness == Readiness::Notify,
    }
}

/// What a helper does.
#[derive(Clone, Copy, Debug, PartialEq, Eq, Structural)]
pub enum ServiceAction {
    Stop,
    Reload,
}

impl ServiceAction {
    /// The name of the helper.
    pub open spec fn label(self) -> Seq<char> {
        match self {
            ServiceAction::Stop => "stop"@,
            ServiceAction::Reload => "reload"@,
        }
    }

    /// The name of the helper.
    pub fn name(self) -> (r: &'static str)
        ensures
            r@ == self.label(),
    {
        match self {
            ServiceAction::Stop => "stop",
            ServiceAction::Reload => "reload",
        }
    }
}

/// A helper that runs.
#[derive(Debug)]
pub struct ActionSlot {
    pub id: u64,
    pub service: ServiceId,
    pub generation: u64,
    pub action: ServiceAction,
    pub timed_out: bool,
}

/// What an [`ActionSlot`] holds.
#[verifier::ext_equal]
pub struct SlotModel {
    pub id: u64,
    pub service: Seq<char>,
    pub generation: u64,
    pub action: ServiceAction,
    pub timed_out: bool,
}

impl View for ActionSlot {
    type V = SlotModel;

    open spec fn view(&self) -> SlotModel {
        SlotModel {
            id: self.id,
            service: self.service@,
            generation: self.generation,
            action: self.action,
            timed_out: self.timed_out,
        }
    }
}

/// What helpers hold.
pub open spec fn slot_models(slots: Seq<ActionSlot>) -> Seq<SlotModel> {
    Seq::new(slots.len(), |i: int| slots[i]@)
}

/// Whether a helper belongs to an attempt of a service.
pub open spec fn of_attempt(slot: SlotModel, service: Seq<char>, generation: u64) -> bool {
    slot.service == service && slot.generation == generation
}

/// The helpers of an attempt marked as timed out.
pub open spec fn cancelled(slots: Seq<SlotModel>, service: Seq<char>, generation: u64) -> Seq<
    SlotModel,
> {
    Seq::new(
        slots.len(),
        |i: int|
            if of_attempt(slots[i], service, generation) {
                SlotModel { timed_out: true, ..slots[i] }
            } else {
                slots[i]
            },
    )
}

/// The numbers of those of the first `n` helpers that belong to an attempt.
pub open spec fn attempt_ids(
    slots: Seq<SlotModel>,
    service: Seq<char>,
    generation: u64,
    n: nat,
) -> Seq<u64>
    decreases n,
{
    if n == 0 {
        Seq::empty()
    } else {
        let before = attempt_ids(slots, service, generation, (n - 1) as nat);
        if of_attempt(slots[n - 1], service, generation) {
            before.push(slots[n - 1].id)
        } else {
            before
        }
    }
}

/// Cancels the helpers of an attempt: they count as timed out, and the numbers of those
/// to be killed are returned.
pub fn cancel_actions(slots: &mut Vec<ActionSlot>, service: &ServiceId, generation: u64) -> (r: Vec<
    u64,
>)
    ensures
        slot_models(final(slots)@) == cancelled(
            slot_models(old(slots)@),
            service@,
            generation,
        ),
        r@ == attempt_ids(
            slot_models(old(slots)@),
            service@,
            generation,
            old(slots)@.len(),
        ),
{
    let ghost before = slot_models(slots@);
    let mut r: Vec<u64> = Vec::new();
    let mut i: usize = 0;
    while i < slots.len()
        invariant
            slots@.len() == before.len(),
            i <= slots@.len(),
            forall|k: int|
                0 <= k < i ==> (#[trigger] slots@[k])@ == cancelled(
                    before,
                    service@,
                    generation,
                )[k],
            forall|k: int| i <= k < slots@.len() ==> (#[trigger] slots@[k])@ == before[k],
            r@ == attempt_ids(before, service@, generation, i as nat),
        decreases slots@.len() - i,
    {
        proof {
            assert(slots@[i as int]@ == before[i as int]);
        }
        if slots[i].service.same(service) && slots[i].generation == generation {
            r.push(slots[i].id);
            slots[i].timed_out = true;
        }
        i = i + 1;
    }
    proof {
        assert(slot_models(slots@) =~= cancelled(before, service@, generation));
    }
    r
}

/// Whether a helper belongs to an attempt.
pub open spec fn has_action(slots: Seq<SlotModel>, service: Seq<char>, generation: u64) -> bool {
    exists|i: int| 0 <= i < slots.len() && of_attempt(#[trigger] slots[i], service, generation)
}

/// Whether a helper belongs to an attempt, which then has not ended yet.
pub fn action_running(slots: &Vec<ActionSlot>, service: &ServiceId, generation: u64) -> (r: bool)
    ensures
        r == has_action(slot_models(slots@), service@, generation),
{
    let ghost all = slot_models(slots@);
    let mut i: usize = 0;
    while i < slots.len()
        invariant
            all == slot_models(slots@),
            i <= slots@.len(),
            forall|k: int| 0 <= k < i ==> !of_attempt(#[trigger] all[k], service@, generation),
        decreases slots@.len() - i,
    {
        proof {
            assert(all[i as int] == slots@[i as int]@);
        }
        if slots[i].service.same(service) && slots[i].generation == generation {
            return true;
        }
        i = i + 1;
    }
    false
}

/// What becomes of a request for a helper.
#[derive(Debug, PartialEq, Eq)]
pub enum ActionRequest {
    Existing(u64),
    Start { generation: u64, command: Vec<String>, timeout_ms: u64 },
}

/// What an [`ActionRequest`] says.
#[verifier::ext_equal]
pub enum ActionRequestModel {
    Existing(u64),
    Start { generation: u64, command: Seq<Seq<char>>, timeout_ms: u64 },
}

impl View for ActionRequest {
    type V = ActionRequestModel;

    open spec fn view(&self) -> ActionRequestModel {
        match *self {
            ActionRequest::Existing(id) => ActionRequestModel::Existing(id),
            ActionRequest::Start { generation, command, timeout_ms } => ActionRequestModel::Start {
                generation,
                command: text::texts(command@),
                timeout_ms,
            },
        }
    }
}

/// The number of the first of the first `n` helpers that does the same for an attempt.
pub open spec fn same_action(
    slots: Seq<SlotModel>,
    service: Seq<char>,
    generation: u64,
    action: ServiceAction,
    n: nat,
) -> Option<u64>
    decreases n,
{
    if n == 0 {
        None
    } else {
        match same_action(slots, service, generation, action, (n - 1) as nat) {
            Some(id) => Some(id),
            None => if of_attempt(slots[n - 1], service, generation) && slots[n - 1].action
                == action {
                Some(slots[n - 1].id)
            } else {
                None
            },
        }
    }
}

proof fn same_action_tail(
    slots: Seq<SlotModel>,
    service: Seq<char>,
    generation: u64,
    action: ServiceAction,
    n: nat,
)
    requires
        n <= slots.len(),
        same_action(slots, service, generation, action, n) is Some,
    ensures
        same_action(slots, service, generation, action, slots.len()) == same_action(
            slots,
            service,
            generation,
            action,
            n,
        ),
    decreases slots.len() - n,
{
    if n < slots.len() {
        same_action_tail(slots, service, generation, action, n + 1);
    }
}

/// Whether a service has a helper.
pub open spec fn service_busy(slots: Seq<SlotModel>, service: Seq<char>) -> bool {
    exists|i: int| 0 <= i < slots.len() && (#[trigger] slots[i]).service == service
}

/// The command of a helper.
pub open spec fn action_command(service: ServiceModel, action: ServiceAction) -> Option<
    Seq<Seq<char>>,
> {
    match action {
        ServiceAction::Stop => service.actions.stop,
        ServiceAction::Reload => service.actions.reload,
    }
}

/// What becomes of a request for a helper: a service without a process has none; one that
/// runs already is not started twice; another one has to end first; and the definition has
/// to name one. `running` is the attempt of the service that has a process.
pub open spec fn action_result(
    slots: Seq<SlotModel>,
    running: Option<u64>,
    service: ServiceModel,
    action: ServiceAction,
) -> Result<ActionRequestModel, ManagerErrorModel> {
    match running {
        None => Err(ManagerErrorModel::InvalidTarget(service.id + " is not running"@)),
        Some(generation) => match same_action(
            slots,
            service.id,
            generation,
            action,
            slots.len(),
        ) {
            Some(id) => Ok(ActionRequestModel::Existing(id)),
            None => if service_busy(slots, service.id) {
                Err(ManagerErrorModel::Runtime(RuntimeErrorModel::ApplyInProgress))
            } else {
                match action_command(service, action) {
                    None => Err(
                        ManagerErrorModel::InvalidTarget(
                            service.id + " has no "@ + action.label() + " action"@,
                        ),
                    ),
                    Some(command) => Ok(
                        ActionRequestModel::Start {
                            generation,
                            command,
                            timeout_ms: match action {
                                ServiceAction::Stop => service.supervision.stop_timeout_ms,
                                ServiceAction::Reload => service.supervision.start_timeout_ms,
                            },
                        },
                    ),
                }
            },
        },
    }
}

fn find_same(
    slots: &Vec<ActionSlot>,
    service: &ServiceId,
    generation: u64,
    action: ServiceAction,
) -> (r: Option<u64>)
    ensures
        r == same_action(
            slot_models(slots@),
            service@,
            generation,
            action,
            slots@.len(),
        ),
{
    let ghost all = slot_models(slots@);
    let mut i: usize = 0;
    while i < slots.len()
        invariant
            all == slot_models(slots@),
            i <= slots@.len(),
            same_action(all, service@, generation, action, i as nat) is None,
        decreases slots@.len() - i,
    {
        proof {
            assert(all[i as int] == slots@[i as int]@);
        }
        if slots[i].service.same(service) && slots[i].generation == generation && slots[i].action
            == action {
            proof {
                same_action_tail(all, service@, generation, action, (i + 1) as nat);
            }
            return Some(slots[i].id);
        }
        i = i + 1;
    }
    None
}

fn is_busy(slots: &Vec<ActionSlot>, service: &ServiceId) -> (r: bool)
    ensures
        r == service_busy(slot_models(slots@), service@),
{
    let ghost all = slot_models(slots@);
    let mut i: usize = 0;
    while i < slots.len()
        invariant
            all == slot_models(slots@),
            i <= slots@.len(),
            forall|k: int| 0 <= k < i ==> (#[trigger] all[k]).service != service@,
        decreases slots@.len() - i,
    {
        proof {
            assert(all[i as int] == slots@[i as int]@);
        }
        if slots[i].service.same(service) {
            return true;
        }
        i = i + 1;
    }
    false
}

/// Decides what becomes of a request for a helper.
pub fn request_action(
    slots: &Vec<ActionSlot>,
    running: Option<u64>,
    definition: &ServiceDefinition,
    action: ServiceAction,
) -> (r: Result<ActionRequest, ManagerError>)
    ensures
        (match r {
            Ok(request) => Ok::<ActionRequestModel, ManagerErrorModel>(request@),
            Err(e) => Err(e@),
        }) == action_result(slot_models(slots@), running, definition@, action),
{
    let service = &definition.id;
    let generation = match running {
        Some(generation) => generation,
        None => {
            return Err(
                ManagerError::InvalidTarget(
                    text::concat2(service.as_str(), " is not running"),
                ),
            );
        },
    };
    if let Some(id) = find_same(slots, service, generation, action) {
        return Ok(ActionRequest::Existing(id));
    }
    if is_busy(slots, service) {
        return Err(ManagerError::Runtime(RuntimeError::ApplyInProgress));
    }
    let command = match action {
        ServiceAction::Stop => &definition.actions.stop,
        ServiceAction::Reload => &definition.actions.reload,
    };
    match command {
        None => {
            let mut reason = text::concat3(service.as_str(), " has no ", action.name());
            reason.append(" action");
            Err(ManagerError::InvalidTarget(reason))
        },
        Some(command) => Ok(
            ActionRequest::Start {
                generation,
                command: text::clone_strings(command),
                timeout_ms: match action {
                    ServiceAction::Stop => definition.supervision.stop_timeout_ms,
                    ServiceAction::Reload => definition.supervision.start_timeout_ms,
                },
            },
        ),
    }
}

/// What a helper is run with: its own command; the variables of the service, with the
/// process of the service in one of them; and the account of the service.
pub fn plan_action(
    command: Vec<String>,
    main_pid: u32,
    process: &ProcessDefinition,
    account: &ResolvedAccount,
    mode: ManagerMode,
    base: &Environment,
) -> (r: SpawnPlan)
    requires
        base.well_formed(),
    ensures
        r.command == command,
        r.environment.well_formed(),
        r.environment@ == overlaid(
            environment::env_set(
                account_environment(base@, *account),
                "LOOM_MAINPID"@,
                text::decimal(main_pid as nat),
            ),
            process@.environment,
            process@.environment.len(),
        ),
        !r.notify,
        match r.identity {
            Some(identity) => mode == ManagerMode::System && identity.uid == account.identity.uid
                && identity.gid == account.identity.gid && identity.supplementary_groups@
                == account.identity.supplementary_groups@,
            None => mode == ManagerMode::User,
        },
{
    let mut variables = account_variables(base, account);
    let pid = text::decimal_string(main_pid as u64);
    variables.insert("LOOM_MAINPID", pid.as_str());
    SpawnPlan {
        command,
        environment: overlay(variables, &process.environment),
        identity: chosen_identity(mode, &account.identity),
        notify: false,
    }
}

/// The variables of a process with a readiness socket: the descriptor of the socket is
/// named over everything else.
pub fn notify_environment(environment: &mut Environment, descriptor: u32)
    requires
        old(environment).well_formed(),
    ensures
        final(environment).well_formed(),
        final(environment)@ == environment::env_set(
            old(environment)@,
            NOTIFY_VARIABLE@,
            text::decimal(descriptor as nat),
        ),
{
    let number = text::decimal_string(descriptor as u64);
    environment.insert(NOTIFY_VARIABLE, number.as_str());
}

/// The position of the first helper with a number.
pub open spec fn slot_position(slots: Seq<SlotModel>, id: u64, n: nat) -> Option<int>
    decreases n,
{
    if n == 0 {
        None
    } else {
        match slot_position(slots, id, (n - 1) as nat) {
            Some(i) => Some(i),
            None => if slots[n - 1].id == id {
                Some(n - 1)
            } else {
                None
            },
        }
    }
}

proof fn slot_position_tail(slots: Seq<SlotModel>, id: u64, n: nat)
    requires
        n <= slots.len(),
        slot_position(slots, id, n) is Some,
    ensures
        slot_position(slots, id, slots.len()) == slot_position(slots, id, n),
    decreases slots.len() - n,
{
    if n < slots.len() {
        slot_position_tail(slots, id, n + 1);
    }
}

fn find_slot(slots: &Vec<ActionSlot>, id: u64) -> (r: Option<usize>)
    ensures
        match r {
            Some(i) => i < slots@.len() && slot_position(slot_models(slots@), id, slots@.len())
                == Some(i as int),
            None => slot_position(slot_models(slots@), id, slots@.len()) is None,
        },
{
    let ghost all = slot_models(slots@);
    let mut i: usize = 0;
    while i < slots.len()
        invariant
            all == slot_models(slots@),
            i <= slots@.len(),
            slot_position(all, id, i as nat) is None,
        decreases slots@.len() - i,
    {
        proof {
            assert(all[i as int] == slots@[i as int]@);
        }
        if slots[i].id == id {
            proof {
                slot_position_tail(all, id, (i + 1) as nat);
            }
            return Some(i);
        }
        i = i + 1;
    }
    None
}

/// Takes note that the time of a helper is over. A helper that still runs is to be killed.
pub fn expire_action(slots: &mut Vec<ActionSlot>, id: u64) -> (r: bool)
    ensures
        match slot_position(slot_models(old(slots)@), id, old(slots)@.len()) {
            Some(i) => r && slot_models(final(slots)@) == slot_models(old(slots)@).update(
                i,
                SlotModel { timed_out: true, ..slot_models(old(slots)@)[i] },
            ),
            None => !r && final(slots)@ == old(slots)@,
        },
{
    match find_slot(slots, id) {
        Some(i) => {
            let ghost before = slot_models(slots@);
            slots[i].timed_out = true;
            proof {
                assert(slot_models(slots@) =~= before.update(
                    i as int,
                    SlotModel { timed_out: true, ..before[i as int] },
                ));
            }
            true
        },
        None => false,
    }
}

/// What follows the end of a helper: how it ended, and whether the process of the service
/// is now told to stop, which it is after its stop helper.
#[derive(Debug, PartialEq, Eq)]
pub struct ActionEnd {
    pub service: ServiceId,
    pub generation: u64,
    pub status: StatusCode,
    pub signal_main: bool,
}

/// How a helper ended.
pub open spec fn ended_status(timed_out: bool, success: bool) -> StatusCode {
    if timed_out {
        StatusCode::Timeout
    } else if success {
        StatusCode::Success
    } else {
        StatusCode::ServiceFailure
    }
}

/// Takes a helper that has ended out. A helper that was too slow or was cancelled did not
/// succeed, whatever it returned.
pub fn finish_action(slots: &mut Vec<ActionSlot>, id: u64, success: bool) -> (r: Option<ActionEnd>)
    ensures
        match slot_position(slot_models(old(slots)@), id, old(slots)@.len()) {
            Some(i) => {
                let slot = slot_models(old(slots)@)[i];
                &&& slot_models(final(slots)@) == slot_models(old(slots)@).remove(i)
                &&& r matches Some(end) && end.service@ == slot.service && end.generation
                    == slot.generation && end.status == ended_status(slot.timed_out, success)
                    && end.signal_main == (slot.action == ServiceAction::Stop)
            },
            None => r is None && final(slots)@ == old(slots)@,
        },
{
    match find_slot(slots, id) {
        Some(i) => {
            let ghost before = slot_models(slots@);
            let slot = slots.remove(i);
            proof {
                assert(slot@ == before[i as int]);
                assert(slot_models(slots@) =~= before.remove(i as int));
            }
            let status = if slot.timed_out {
                StatusCode::Timeout
            } else if success {
                StatusCode::Success
            } else {
                StatusCode::ServiceFailure
            };
            Some(
                ActionEnd {
                    service: slot.service,
                    generation: slot.generation,
                    status,
                    signal_main: slot.action == ServiceAction::Stop,
                },
            )
        },
        None => None,
    }
}

/// The message of a service that is ready, in bytes.
pub open spec fn ready_message() -> Seq<u8> {
    seq![82u8, 69u8, 65u8, 68u8, 89u8]
}

/// The beginning of a message that only informs: `STATUS` and a space, in bytes.
pub open spec fn status_message() -> Seq<u8> {
    seq![83u8, 84u8, 65u8, 84u8, 85u8, 83u8, 32u8]
}

/// The event that a read of a readiness socket gives, where it gives one.
pub open spec fn notified(
    service: Seq<char>,
    generation: u64,
    read: NotificationRead,
    at_ms: u64,
) -> Option<EventModel> {
    match read {
        NotificationRead::Pending => None,
        NotificationRead::Message(message) => if message@ == ready_message() {
            Some(EventModel::Ready { service, generation, at_ms })
        } else if message@.len() >= 7 && message@.take(7) == status_message() {
            None
        } else {
            Some(EventModel::ReadinessFailed { service, generation, at_ms })
        },
        NotificationRead::Closed => Some(
            EventModel::ReadinessFailed { service, generation, at_ms },
        ),
    }
}

fn is_ready(message: &Vec<u8>) -> (r: bool)
    ensures
        r == (message@ == ready_message()),
{
    let r = message.len() == 5 && message[0] == 82 && message[1] == 69 && message[2] == 65
        && message[3] == 68 && message[4] == 89;
    proof {
        if r {
            assert(message@ =~= ready_message());
        }
    }
    r
}

fn is_status(message: &Vec<u8>) -> (r: bool)
    ensures
        r == (message@.len() >= 7 && message@.take(7) == status_message()),
{
    if message.len() < 7 {
        return false;
    }
    let r = message[0] == 83 && message[1] == 84 && message[2] == 65 && message[3] == 84
        && message[4] == 85 && message[5] == 83 && message[6] == 32;
    proof {
        let head = message@.take(7);
        if r {
            assert(head =~= status_message());
        } else if head == status_message() {
            assert(head[0] == 83 && head[1] == 84 && head[2] == 65 && head[3] == 84 && head[4]
                == 85 && head[5] == 83 && head[6] == 32);
        }
    }
    r
}

/// The event that a read of the readiness socket of a service gives. A service says that
/// it is ready once; anything else that is not information, and the end of the connection,
/// is a failure. The socket is closed with the event.
pub fn notification_event(
    service: &ServiceId,
    generation: u64,
    read: &NotificationRead,
    at_ms: u64,
) -> (r: Option<RuntimeEvent>)
    ensures
        (match r {
            Some(event) => Some(event@),
            None => None,
        }) == notified(service@, generation, *read, at_ms),
{
    match read {
        NotificationRead::Pending => None,
        NotificationRead::Message(message) => if is_ready(message) {
            Some(RuntimeEvent::Ready { service: service.clone(), generation, at_ms })
        } else if is_status(message) {
            None
        } else {
            Some(RuntimeEvent::ReadinessFailed { service: service.clone(), generation, at_ms })
        },
        NotificationRead::Closed => Some(
            RuntimeEvent::ReadinessFailed { service: service.clone(), generation, at_ms },
        ),
    }
}

/// The event of an attempt to start a process.
pub fn spawn_event(service: &ServiceId, generation: u64, spawned: bool, at_ms: u64) -> (r:
    RuntimeEvent)
    ensures
        r@ == if spawned {
            EventModel::ExecSucceeded { service: service@, generation, at_ms }
        } else {
            EventModel::SpawnFailed { service: service@, generation, at_ms }
        },
{
    if spawned {
        RuntimeEvent::ExecSucceeded { service: service.clone(), generation, at_ms }
    } else {
        RuntimeEvent::SpawnFailed { service: service.clone(), generation, at_ms }
    }
}

/// How a process ended, out of what the kernel says: it succeeded, a signal ended it, or
/// it exited with a code.
pub fn exit_outcome(success: bool, signal: Option<i32>, code: Option<i32>) -> (r: ExitOutcome)
    ensures
        r == if success {
            ExitOutcome::Success
        } else {
            match (signal, code) {
                (Some(signal), _) => ExitOutcome::Signal(signal),
                (None, Some(code)) => ExitOutcome::ExitCode(code),
                (None, None) => ExitOutcome::ExitCode(1),
            }
        },
{
    if success {
        ExitOutcome::Success
    } else {
        match (signal, code) {
            (Some(signal), _) => ExitOutcome::Signal(signal),
            (None, Some(code)) => ExitOutcome::ExitCode(code),
            (None, None) => ExitOutcome::ExitCode(1),
        }
    }
}

/// What is done about an effect: a process is started; a process is told to stop, with its
/// helpers cancelled where it is killed; the stop helper is run first where there is one,
/// unless the process is killed; or a deadline is set.
#[derive(Debug, PartialEq, Eq)]
pub enum EffectStep {
    Spawn { service: ServiceId, generation: u64 },
    Signal { service: ServiceId, generation: u64, force: bool },
    RunStopAction { service: ServiceId, generation: u64 },
    Arm { service: ServiceId, generation: u64, kind: TimerKind, when_ms: u64 },
}

/// What an [`EffectStep`] says.
#[verifier::ext_equal]
pub enum EffectStepModel {
    Spawn { service: Seq<char>, generation: u64 },
    Signal { service: Seq<char>, generation: u64, force: bool },
    RunStopAction { service: Seq<char>, generation: u64 },
    Arm { service: Seq<char>, generation: u64, kind: TimerKind, when_ms: u64 },
}

impl View for EffectStep {
    type V = EffectStepModel;

    open spec fn view(&self) -> EffectStepModel {
        match *self {
            EffectStep::Spawn { service, generation } => EffectStepModel::Spawn {
                service: service@,
                generation,
            },
            EffectStep::Signal { service, generation, force } => EffectStepModel::Signal {
                service: service@,
                generation,
                force,
            },
            EffectStep::RunStopAction { service, generation } =>
                EffectStepModel::RunStopAction { service: service@, generation },
            EffectStep::Arm { service, generation, kind, when_ms } => EffectStepModel::Arm {
                service: service@,
                generation,
                kind,
                when_ms,
            },
        }
    }
}

/// Whether the definition of a service names a stop helper.
pub open spec fn has_stop_action(e: lifecycle::EngineModel, id: Seq<char>) -> bool {
    match lifecycle::position(e.snapshot.catalog, id) {
        Some(i) => e.snapshot.catalog.services[i].actions.stop is Some,
        None => false,
    }
}

/// What is done about an effect.
pub open spec fn step_of(
    e: lifecycle::EngineModel,
    effect: lifecycle::EffectModel,
    now_ms: u64,
) -> EffectStepModel {
    match effect {
        lifecycle::EffectModel::Spawn { service, generation } => EffectStepModel::Spawn {
            service,
            generation,
        },
        lifecycle::EffectModel::Terminate { service, generation, force } => if !force
            && has_stop_action(e, service) {
            EffectStepModel::RunStopAction { service, generation }
        } else {
            EffectStepModel::Signal { service, generation, force }
        },
        lifecycle::EffectModel::ArmTimer { service, generation, kind, after_ms } =>
            EffectStepModel::Arm {
            service,
            generation,
            kind,
            when_ms: pending::later(now_ms, after_ms),
        },
    }
}

/// Decides what is done about an effect.
pub fn effect_step(engine: &RuntimeEngine, effect: RuntimeEffect, now_ms: u64) -> (r: EffectStep)
    requires
        engine@.consistent(),
    ensures
        r@ == step_of(engine@, effect@, now_ms),
{
    match effect {
        RuntimeEffect::Spawn { service, generation } => EffectStep::Spawn { service, generation },
        RuntimeEffect::Terminate { service, generation, force } => {
            let found = engine.snapshot().service(&service);
            let helper = match found {
                Some(definition) => definition.actions.stop.is_some(),
                None => false,
            };
            proof {
                let c = engine@.snapshot.catalog;
                match found {
                    Some(definition) => {
                        let i = choose|i: int|
                            0 <= i < c.services.len() && (#[trigger] c.services[i]).id == service@
                                && c.services[i] == definition@;
                        lifecycle::position_unique(c, i);
                    },
                    None => {
                        assert forall|i: int| 0 <= i < c.services.len() implies (
                        #[trigger] c.services[i]).id != service@ by {
                            assert(catalog::service_ids(c.services)[i] == c.services[i].id);
                        }
                    },
                }
            }
            if !force && helper {
                EffectStep::RunStopAction { service, generation }
            } else {
                EffectStep::Signal { service, generation, force }
            }
        },
        RuntimeEffect::ArmTimer { service, generation, kind, after_ms } => EffectStep::Arm {
            service,
            generation,
            kind,
            when_ms: pending::time_after(now_ms, after_ms),
        },
    }
}

/// How far the end of a process has come: its leader runs, or has exited.
#[derive(Clone, Copy, Debug, PartialEq, Eq, Structural)]
pub enum ExitState {
    Running,
    Left(ExitOutcome),
}

/// What is known anew when a process is looked after: nothing yet, whether its leader has
/// exited, or whether everything else that belongs to it is gone.
#[derive(Clone, Copy, Debug, PartialEq, Eq, Structural)]
pub enum ExitReport {
    Begin,
    Leader(Option<ExitOutcome>),
    Domain { empty: bool },
}

/// What is done next about the end of a process.
#[derive(Clone, Copy, Debug, PartialEq, Eq, Structural)]
pub enum ExitStep {
    AskLeader,
    KillDomain,
    AskDomain,
    Wait,
    Ended(ExitOutcome),
}

/// The state after a report: the first exit of the leader is kept.
pub open spec fn exit_after(state: ExitState, report: ExitReport) -> ExitState {
    match (state, report) {
        (ExitState::Running, ExitReport::Leader(Some(outcome))) => ExitState::Left(outcome),
        _ => state,
    }
}

/// The step that a report leads to.
pub open spec fn exit_answer(state: ExitState, report: ExitReport) -> ExitStep {
    match state {
        ExitState::Running => match report {
            ExitReport::Leader(None) => ExitStep::Wait,
            ExitReport::Leader(Some(_)) => ExitStep::KillDomain,
            _ => ExitStep::AskLeader,
        },
        ExitState::Left(outcome) => match report {
            ExitReport::Domain { empty } => if empty {
                ExitStep::Ended(outcome)
            } else {
                ExitStep::Wait
            },
            _ => ExitStep::AskDomain,
        },
    }
}

/// Looks after the end of a process: once its leader has exited the rest is killed, and
/// the process has ended when nothing of it is left.
pub fn exit_step(state: &mut ExitState, report: ExitReport) -> (r: ExitStep)
    ensures
        *final(state) == exit_after(*old(state), report),
        r == exit_answer(*old(state), report),
{
    match *state {
        ExitState::Running => match report {
            ExitReport::Leader(None) => ExitStep::Wait,
            ExitReport::Leader(Some(outcome)) => {
                *state = ExitState::Left(outcome);
                ExitStep::KillDomain
            },
            _ => ExitStep::AskLeader,
        },
        ExitState::Left(outcome) => match report {
            ExitReport::Domain { empty } => if empty {
                ExitStep::Ended(outcome)
            } else {
                ExitStep::Wait
            },
            _ => ExitStep::AskDomain,
        },
    }
}

/// The state after the first `n` of some reports.
pub open spec fn exit_state(reports: Seq<ExitReport>, n: nat) -> ExitState
    decreases n,
{
    if n == 0 {
        ExitState::Running
    } else {
        exit_after(exit_state(reports, (n - 1) as nat), reports[n - 1])
    }
}

/// A process has ended only where nothing of it is left, its leader has exited before, and
/// everything else was killed then; the way in which it ended is that of the leader.
pub proof fn exit_law(reports: Seq<ExitReport>, n: int, outcome: ExitOutcome)
    requires
        0 <= n < reports.len(),
        exit_answer(exit_state(reports, n as nat), reports[n]) == ExitStep::Ended(outcome),
    ensures
        reports[n] == (ExitReport::Domain { empty: true }),
        exists|k: int|
            0 <= k < n && #[trigger] reports[k] == ExitReport::Leader(Some(outcome)) && exit_answer(
                exit_state(reports, k as nat),
                reports[k],
            ) == ExitStep::KillDomain,
{
    leader_left(reports, n as nat, outcome);
}

proof fn leader_left(reports: Seq<ExitReport>, n: nat, outcome: ExitOutcome)
    requires
        n <= reports.len(),
        exit_state(reports, n) == ExitState::Left(outcome),
    ensures
        exists|k: int|
            0 <= k < n && #[trigger] reports[k] == ExitReport::Leader(Some(outcome)) && exit_answer(
                exit_state(reports, k as nat),
                reports[k],
            ) == ExitStep::KillDomain,
    decreases n,
{
    let before = exit_state(reports, (n - 1) as nat);
    if before == ExitState::Left(outcome) {
        leader_left(reports, (n - 1) as nat, outcome);
    } else {
        assert(reports[n - 1] == ExitReport::Leader(Some(outcome)));
    }
}

/// What becomes of an attempt once its process was looked after: it goes on, its helpers
/// are to be killed first, or it is over.
#[derive(Debug, PartialEq, Eq)]
pub enum AttemptStep {
    GoesOn,
    KillHelpers(Vec<u64>),
    Over(RuntimeEvent),
}

/// Ends an attempt whose process has ended, unless a helper of it is left: the helper is
/// cancelled, and the attempt is over once it is gone too.
pub fn end_attempt(
    slots: &mut Vec<ActionSlot>,
    service: &ServiceId,
    generation: u64,
    ended: Option<ExitOutcome>,
    at_ms: u64,
) -> (r: AttemptStep)
    ensures
        match ended {
            None => r == AttemptStep::GoesOn && *final(slots) == *old(slots),
            Some(outcome) => if has_action(slot_models(old(slots)@), service@, generation) {
                &&& r matches AttemptStep::KillHelpers(ids)
                &&& ids@ == attempt_ids(
                    slot_models(old(slots)@),
                    service@,
                    generation,
                    old(slots)@.len(),
                )
                &&& slot_models(final(slots)@) == cancelled(
                    slot_models(old(slots)@),
                    service@,
                    generation,
                )
            } else {
                &&& r matches AttemptStep::Over(event)
                &&& event@ == (EventModel::Exited { service: service@, generation, outcome, at_ms })
                &&& *final(slots) == *old(slots)
            },
        },
{
    match ended {
        None => AttemptStep::GoesOn,
        Some(outcome) => if action_running(slots, service, generation) {
            AttemptStep::KillHelpers(cancel_actions(slots, service, generation))
        } else {
            AttemptStep::Over(
                RuntimeEvent::Exited { service: service.clone(), generation, outcome, at_ms },
            )
        },
    }
}

/// What a service sees of a variable: its own value where its definition sets it, else that of
/// its account for the home, the name, the login name and the shell, else that of the manager.
pub proof fn spawn_variable_law(
    base: Seq<(Seq<char>, Seq<char>)>,
    account: ResolvedAccount,
    more: Seq<(Seq<char>, Seq<char>)>,
    n: nat,
    key: Seq<char>,
)
    requires
        environment::ascending(base),
        n <= more.len(),
    ensures
        ({
            let all = overlaid(account_environment(base, account), more, n);
            let seen = environment::env_value(all, key);
            &&& environment::ascending(all)
            &&& forall|k: int|
                0 <= k < n && (#[trigger] more[k]).0 == key && (forall|m: int|
                    k < m < n ==> (#[trigger] more[m]).0 != key) ==> seen == Some(more[k].1)
            &&& (forall|k: int| 0 <= k < n ==> (#[trigger] more[k]).0 != key) ==> seen == if key
                == "HOME"@ {
                Some(account.home@)
            } else if key == "USER"@ || key == "LOGNAME"@ {
                Some(account.name@)
            } else if key == "SHELL"@ {
                Some(account.shell@)
            } else {
                environment::env_value(base, key)
            }
        }),
    decreases n,
{
    if n == 0 {
        account_variable(base, account, key);
    } else {
        spawn_variable_law(base, account, more, (n - 1) as nat, key);
        let before = overlaid(account_environment(base, account), more, (n - 1) as nat);
        environment::env_set_law(before, more[n - 1].0, more[n - 1].1, key);
    }
}

proof fn account_variable(
    base: Seq<(Seq<char>, Seq<char>)>,
    account: ResolvedAccount,
    key: Seq<char>,
)
    requires
        environment::ascending(base),
    ensures
        environment::ascending(account_environment(base, account)),
        environment::env_value(account_environment(base, account), key) == if key == "HOME"@ {
            Some(account.home@)
        } else if key == "USER"@ || key == "LOGNAME"@ {
            Some(account.name@)
        } else if key == "SHELL"@ {
            Some(account.shell@)
        } else {
            environment::env_value(base, key)
        },
{
    reveal_strlit("HOME");
    reveal_strlit("USER");
    reveal_strlit("LOGNAME");
    reveal_strlit("SHELL");
    assert("HOME"@[0] == 'H' && "USER"@[0] == 'U' && "LOGNAME"@[0] == 'L' && "SHELL"@[0] == 'S');
    let one = environment::env_set(base, "HOME"@, account.home@);
    let two = environment::env_set(one, "USER"@, account.name@);
    let three = environment::env_set(two, "LOGNAME"@, account.name@);
    environment::env_set_law(base, "HOME"@, account.home@, key);
    environment::env_set_law(one, "USER"@, account.name@, key);
    environment::env_set_law(two, "LOGNAME"@, account.name@, key);
    environment::env_set_law(three, "SHELL"@, account.shell@, key);
}

/// What a user's manager hands on of its own variables: each of them, with its last value, but
/// not the one that names a readiness socket, and nothing else.
pub proof fn captured_law(own: Seq<(Seq<char>, Seq<char>)>, n: nat, key: Seq<char>)
    requires
        n <= own.len(),
    ensures
        environment::ascending(captured(own, n)),
        environment::env_value(captured(own, n), "LOOM_NOTIFY_FD"@) is None,
        key != "LOOM_NOTIFY_FD"@ ==> forall|k: int|
            0 <= k < n && (#[trigger] own[k]).0 == key && (forall|m: int|
                k < m < n ==> (#[trigger] own[m]).0 != key) ==> environment::env_value(
                captured(own, n),
                key,
            ) == Some(own[k].1),
        (forall|k: int| 0 <= k < n ==> (#[trigger] own[k]).0 != key) ==> environment::env_value(
            captured(own, n),
            key,
        ) is None,
    decreases n,
{
    if n > 0 {
        captured_law(own, (n - 1) as nat, key);
        let before = captured(own, (n - 1) as nat);
        environment::env_set_law(before, own[n - 1].0, own[n - 1].1, key);
        environment::env_set_law(before, own[n - 1].0, own[n - 1].1, "LOOM_NOTIFY_FD"@);
    }
}

/// Cancelling touches the helpers of one attempt of one service alone: these count as timed
/// out, and theirs are the numbers that are handed out.
pub proof fn cancel_law(slots: Seq<SlotModel>, service: Seq<char>, generation: u64, i: int)
    requires
        0 <= i < slots.len(),
    ensures
        ({
            let after = cancelled(slots, service, generation);
            let ids = attempt_ids(slots, service, generation, slots.len());
            let hit = slots[i].service == service && slots[i].generation == generation;
            &&& after.len() == slots.len()
            &&& after[i].id == slots[i].id
            &&& after[i].service == slots[i].service
            &&& after[i].generation == slots[i].generation
            &&& after[i].action == slots[i].action
            &&& after[i].timed_out == (hit || slots[i].timed_out)
            &&& hit ==> ids.contains(slots[i].id) && has_action(slots, service, generation)
            &&& !has_action(slots, service, generation) ==> ids.len() == 0 && after == slots
        }),
{
    attempt_ids_law(slots, service, generation, slots.len(), i);
    if !has_action(slots, service, generation) {
        assert forall|k: int| 0 <= k < slots.len() implies !of_attempt(
            #[trigger] slots[k],
            service,
            generation,
        ) by {}
        assert(cancelled(slots, service, generation) =~= slots);
        let ids = attempt_ids(slots, service, generation, slots.len());
        if ids.len() > 0 {
            assert(numbers(slots, service, generation, slots.len(), ids[0]));
        }
    }
}

proof fn attempt_ids_law(
    slots: Seq<SlotModel>,
    service: Seq<char>,
    generation: u64,
    n: nat,
    i: int,
)
    requires
        n <= slots.len(),
    ensures
        0 <= i < n && slots[i].service == service && slots[i].generation == generation
            ==> attempt_ids(slots, service, generation, n).contains(slots[i].id),
        forall|q: int|
            0 <= q < attempt_ids(slots, service, generation, n).len() ==> numbers(
                slots,
                service,
                generation,
                n,
                #[trigger] attempt_ids(slots, service, generation, n)[q],
            ),
    decreases n,
{
    if n > 0 {
        attempt_ids_law(slots, service, generation, (n - 1) as nat, i);
        let before = attempt_ids(slots, service, generation, (n - 1) as nat);
        let all = attempt_ids(slots, service, generation, n);
        if 0 <= i < n - 1 && slots[i].service == service && slots[i].generation == generation {
            let q = choose|q: int| 0 <= q < before.len() && before[q] == slots[i].id;
            assert(all[q] == slots[i].id);
        }
        if i == n - 1 && slots[i].service == service && slots[i].generation == generation {
            assert(all[before.len() as int] == slots[i].id);
        }
        assert forall|q: int| 0 <= q < all.len() implies numbers(
            slots,
            service,
            generation,
            n,
            #[trigger] all[q],
        ) by {
            if q < before.len() {
                assert(all[q] == before[q]);
                assert(numbers(slots, service, generation, (n - 1) as nat, before[q]));
                let k = choose|k: int|
                    0 <= k < n - 1 && (#[trigger] slots[k]).service == service
                        && slots[k].generation == generation && slots[k].id == before[q];
                assert(slots[k].id == all[q]);
            } else {
                assert(slots[n - 1].id == all[q]);
            }
        }
    }
}

/// Whether one of the first `n` helpers, of an attempt of a service, has a number.
pub open spec fn numbers(
    slots: Seq<SlotModel>,
    service: Seq<char>,
    generation: u64,
    n: nat,
    id: u64,
) -> bool {
    exists|k: int|
        0 <= k < n && (#[trigger] slots[k]).service == service && slots[k].generation == generation
            && slots[k].id == id
}

/// The numbers that are handed out when helpers are cancelled are those of the attempt and no
/// others.
pub proof fn cancel_only_law(slots: Seq<SlotModel>, service: Seq<char>, generation: u64, q: int)
    requires
        0 <= q < attempt_ids(slots, service, generation, slots.len()).len(),
    ensures
        numbers(
            slots,
            service,
            generation,
            slots.len(),
            attempt_ids(slots, service, generation, slots.len())[q],
        ),
{
    attempt_ids_law(slots, service, generation, slots.len(), 0);
}

/// Whether a helper does the same for the same attempt of the same service.
pub open spec fn repeats(
    slot: SlotModel,
    service: Seq<char>,
    generation: u64,
    action: ServiceAction,
) -> bool {
    slot.service == service && slot.generation == generation && slot.action == action
}

proof fn same_action_law(
    slots: Seq<SlotModel>,
    service: Seq<char>,
    generation: u64,
    action: ServiceAction,
    n: nat,
)
    requires
        n <= slots.len(),
    ensures
        match same_action(slots, service, generation, action, n) {
            None => forall|k: int|
                0 <= k < n ==> !repeats(#[trigger] slots[k], service, generation, action),
            Some(id) => exists|k: int|
                0 <= k < n && repeats(#[trigger] slots[k], service, generation, action)
                    && slots[k].id == id,
        },
    decreases n,
{
    if n > 0 {
        same_action_law(slots, service, generation, action, (n - 1) as nat);
        if same_action(slots, service, generation, action, (n - 1) as nat) is None
            && same_action(slots, service, generation, action, n) is Some {
            assert(repeats(slots[n - 1], service, generation, action));
        }
    }
}

/// When a helper is run: for a service with a process, whose definition names one, while no
/// helper of the service runs. It runs for the attempt that has the process, with the command
/// of its kind and within the time that stopping, or starting for a reload, may take. One
/// that already runs for the same attempt is shared instead.
pub proof fn action_law(
    slots: Seq<SlotModel>,
    running: Option<u64>,
    service: ServiceModel,
    action: ServiceAction,
)
    ensures
        match action_result(slots, running, service, action) {
            Ok(ActionRequestModel::Existing(id)) => running is Some && exists|k: int|
                0 <= k < slots.len() && repeats(
                    #[trigger] slots[k],
                    service.id,
                    running->0,
                    action,
                ) && slots[k].id == id,
            Ok(ActionRequestModel::Start { generation, command, timeout_ms }) => {
                &&& running == Some(generation)
                &&& forall|k: int|
                    0 <= k < slots.len() ==> (#[trigger] slots[k]).service != service.id
                &&& action == ServiceAction::Stop ==> service.actions.stop == Some(command)
                    && timeout_ms == service.supervision.stop_timeout_ms
                &&& action == ServiceAction::Reload ==> service.actions.reload == Some(command)
                    && timeout_ms == service.supervision.start_timeout_ms
            },
            Err(e) => {
                ||| running is None && e == ManagerErrorModel::InvalidTarget(
                    service.id + " is not running"@,
                )
                ||| running is Some && e == ManagerErrorModel::Runtime(
                    RuntimeErrorModel::ApplyInProgress,
                ) && exists|k: int|
                    0 <= k < slots.len() && (#[trigger] slots[k]).service == service.id
                        && !repeats(slots[k], service.id, running->0, action)
                ||| running is Some && action == ServiceAction::Stop && service.actions.stop is None
                    && e == ManagerErrorModel::InvalidTarget(
                    service.id + " has no "@ + "stop"@ + " action"@,
                )
                ||| running is Some && action == ServiceAction::Reload && service.actions.reload
                    is None && e == ManagerErrorModel::InvalidTarget(
                    service.id + " has no "@ + "reload"@ + " action"@,
                )
            },
        },
        running is Some && (exists|k: int|
            0 <= k < slots.len() && repeats(#[trigger] slots[k], service.id, running->0, action))
            ==> action_result(slots, running, service, action) is Ok,
{
    if let Some(generation) = running {
        same_action_law(slots, service.id, generation, action, slots.len());
    }
}

/// Which helper a number finds: the first that has it, and none where none has.
pub proof fn slot_law(slots: Seq<SlotModel>, id: u64, n: nat)
    requires
        n <= slots.len(),
    ensures
        match slot_position(slots, id, n) {
            None => forall|k: int| 0 <= k < n ==> (#[trigger] slots[k]).id != id,
            Some(i) => 0 <= i < n && slots[i].id == id && forall|k: int|
                0 <= k < i ==> (#[trigger] slots[k]).id != id,
        },
    decreases n,
{
    if n > 0 {
        slot_law(slots, id, (n - 1) as nat);
    }
}

/// How a helper has ended: one that was too slow did not succeed, whatever it returned, and
/// one that was not succeeded exactly where it returned success.
pub proof fn ended_law(timed_out: bool, success: bool)
    ensures
        ended_status(timed_out, success) == StatusCode::Success <==> success && !timed_out,
        ended_status(timed_out, success) == StatusCode::Timeout <==> timed_out,
        ended_status(timed_out, success) == StatusCode::ServiceFailure <==> !success && !timed_out,
{
}

/// What a service says: it is ready exactly where it says `READY` and nothing more. What
/// begins with `STATUS` and a space says nothing, nor does silence; anything else, and the
/// end of the connection, is a failure. Each is said of the attempt that says it.
pub proof fn notified_law(
    service: Seq<char>,
    generation: u64,
    read: NotificationRead,
    at_ms: u64,
)
    ensures
        ({
            let event = notified(service, generation, read, at_ms);
            &&& (event is Some ==> event == Some(
                EventModel::Ready { service, generation, at_ms },
            ) || event == Some(EventModel::ReadinessFailed { service, generation, at_ms }))
            &&& match read {
                NotificationRead::Pending => event is None,
                NotificationRead::Closed => event->0 is ReadinessFailed && event is Some,
                NotificationRead::Message(message) => {
                    &&& (event is Some && event->0 is Ready) <==> message@.len() == 5 && message@[0]
                        == 0x52 && message@[1] == 0x45 && message@[2] == 0x41 && message@[3] == 0x44
                        && message@[4] == 0x59
                    &&& event is None <==> message@.len() >= 7 && message@[0] == 0x53 && message@[1]
                        == 0x54 && message@[2] == 0x41 && message@[3] == 0x54 && message@[4] == 0x55
                        && message@[5] == 0x53 && message@[6] == 0x20
                },
            }
        }),
{
    if let NotificationRead::Message(message) = read {
        let m = message@;
        if m.len() == 5 && m[0] == 0x52 && m[1] == 0x45 && m[2] == 0x41 && m[3] == 0x44 && m[4]
            == 0x59 {
            assert(m =~= ready_message());
        }
        if m.len() >= 7 {
            let head = m.take(7);
            assert(head[0] == m[0] && head[1] == m[1] && head[2] == m[2] && head[3] == m[3]
                && head[4] == m[4] && head[5] == m[5] && head[6] == m[6]);
            if m[0] == 0x53 && m[1] == 0x54 && m[2] == 0x41 && m[3] == 0x54 && m[4] == 0x55 && m[5]
                == 0x53 && m[6] == 0x20 {
                assert(head =~= status_message());
            }
        }
    }
}

/// What is done about an effect: a process is started; one that is to be killed is killed; one
/// that is to stop is told so, after its stop helper where its definition names one; and a
/// timer is set as long after now as it says. Each is for the attempt that the effect is for.
pub proof fn step_law(
    e: lifecycle::EngineModel,
    i: int,
    generation: u64,
    now_ms: u64,
    after_ms: u64,
    kind: TimerKind,
)
    requires
        e.consistent(),
        0 <= i < e.services.len(),
    ensures
        ({
            let s = e.snapshot.catalog.services[i];
            let service = s.id;
            &&& step_of(e, (lifecycle::EffectModel::Spawn { service, generation }), now_ms) == (
            EffectStepModel::Spawn { service, generation })
            &&& step_of(
                e,
                (lifecycle::EffectModel::Terminate { service, generation, force: true }),
                now_ms,
            ) == (EffectStepModel::Signal { service, generation, force: true })
            &&& step_of(
                e,
                (lifecycle::EffectModel::Terminate { service, generation, force: false }),
                now_ms,
            ) == if s.actions.stop is Some {
                EffectStepModel::RunStopAction { service, generation }
            } else {
                EffectStepModel::Signal { service, generation, force: false }
            }
            &&& now_ms + after_ms <= u64::MAX ==> step_of(
                e,
                (lifecycle::EffectModel::ArmTimer { service, generation, kind, after_ms }),
                now_ms,
            ) == (EffectStepModel::Arm {
                service,
                generation,
                kind,
                when_ms: (now_ms + after_ms) as u64,
            })
        }),
{
    lifecycle::position_unique(e.snapshot.catalog, i);
}

/// How the end of a process is looked after: until its leader has exited that is asked for,
/// and its exit kills the rest; from then on the exit stays, and the process has ended once
/// nothing is left of it.
pub proof fn exit_step_law(outcome: ExitOutcome, other: Option<ExitOutcome>, empty: bool)
    ensures
        exit_answer(ExitState::Running, ExitReport::Begin) == ExitStep::AskLeader,
        exit_answer(ExitState::Running, ExitReport::Leader(None)) == ExitStep::Wait,
        exit_answer(ExitState::Running, ExitReport::Leader(Some(outcome))) == ExitStep::KillDomain,
        exit_after(ExitState::Running, ExitReport::Leader(Some(outcome))) == ExitState::Left(
            outcome,
        ),
        exit_after(ExitState::Running, ExitReport::Leader(None)) == ExitState::Running,
        exit_after(ExitState::Left(outcome), ExitReport::Leader(other)) == ExitState::Left(outcome),
        exit_after(ExitState::Left(outcome), (ExitReport::Domain { empty })) == ExitState::Left(
            outcome,
        ),
        exit_answer(ExitState::Left(outcome), ExitReport::Begin) == ExitStep::AskDomain,
        exit_answer(ExitState::Left(outcome), (ExitReport::Domain { empty })) == if empty {
            ExitStep::Ended(outcome)
        } else {
            ExitStep::Wait
        },
{
}

} // verus!
