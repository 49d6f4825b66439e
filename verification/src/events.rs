//! The sources of events: what a number stands for, what an event asks for, and how a new
//! process is registered.

use std::collections::HashMap;

use vstd::prelude::*;

use crate::deadline;
use crate::deadline::{TokenAllocator, LISTENER_TOKEN, SIGNAL_TOKEN, TIMER_TOKEN};
use crate::linux::ReadyEvent;
use crate::model::ServiceId;

verus! {

broadcast use vstd::std_specs::hash::group_hash_axioms;

/// How many clients are served at once.
pub const MAX_CLIENTS: usize = 128;

/// Whether one more client is accepted.
pub fn may_accept(clients: usize) -> (r: bool)
    ensures
        r == (clients < MAX_CLIENTS),
{
    clients < MAX_CLIENTS
}

/// What events come from.
#[derive(Debug, PartialEq, Eq)]
pub enum Source {
    Listener,
    Signal,
    Timer,
    Client(u64),
    Action(u64),
    Rescue,
    Process { service: ServiceId, generation: u64 },
    Notify { service: ServiceId, generation: u64, token: u64 },
}

/// What a [`Source`] is.
#[verifier::ext_equal]
pub enum SourceModel {
    Listener,
    Signal,
    Timer,
    Client(u64),
    Action(u64),
    Rescue,
    Process { service: Seq<char>, generation: u64 },
    Notify { service: Seq<char>, generation: u64, token: u64 },
}

impl View for Source {
    type V = SourceModel;

    open spec fn view(&self) -> SourceModel {
        match *self {
            Source::Listener => SourceModel::Listener,
            Source::Signal => SourceModel::Signal,
            Source::Timer => SourceModel::Timer,
            Source::Client(token) => SourceModel::Client(token),
            Source::Action(id) => SourceModel::Action(id),
            Source::Rescue => SourceModel::Rescue,
            Source::Process { service, generation } => SourceModel::Process {
                service: service@,
                generation,
            },
            Source::Notify { service, generation, token } => SourceModel::Notify {
                service: service@,
                generation,
                token,
            },
        }
    }
}

impl Source {
    /// A copy of the source.
    pub fn copy(&self) -> (r: Source)
        ensures
            r@ == self@,
    {
        match self {
            Source::Listener => Source::Listener,
            Source::Signal => Source::Signal,
            Source::Timer => Source::Timer,
            Source::Client(token) => Source::Client(*token),
            Source::Action(id) => Source::Action(*id),
            Source::Rescue => Source::Rescue,
            Source::Process { service, generation } => Source::Process {
                service: service.clone(),
                generation: *generation,
            },
            Source::Notify { service, generation, token } => Source::Notify {
                service: service.clone(),
                generation: *generation,
                token: *token,
            },
        }
    }
}

/// What the numbers that were handed out stand for.
#[derive(Debug)]
pub struct SourceTable {
    entries: HashMap<u64, Source>,
}

impl View for SourceTable {
    type V = Map<u64, SourceModel>;

    closed spec fn view(&self) -> Map<u64, SourceModel> {
        self.entries@.map_values(|source: Source| source@)
    }
}

/// What a number stands for: a fixed source, or one of the table.
pub open spec fn source_of(table: Map<u64, SourceModel>, token: u64) -> Option<SourceModel> {
    if token == LISTENER_TOKEN {
        Some(SourceModel::Listener)
    } else if token == SIGNAL_TOKEN {
        Some(SourceModel::Signal)
    } else if token == TIMER_TOKEN {
        Some(SourceModel::Timer)
    } else if table.contains_key(token) {
        Some(table[token])
    } else {
        None
    }
}

impl SourceTable {
    /// A table without sources.
    pub fn new() -> (r: SourceTable)
        ensures
            r@ == Map::<u64, SourceModel>::empty(),
    {
        let r = SourceTable { entries: HashMap::new() };
        proof {
            assert(r@ =~= Map::empty());
        }
        r
    }

    /// Lets a number stand for a source.
    pub fn insert(&mut self, token: u64, source: Source)
        ensures
            final(self)@ == old(self)@.insert(token, source@),
    {
        let ghost before = self@;
        self.entries.insert(token, source);
        proof {
            assert(self@ =~= before.insert(token, source@));
        }
    }

    /// Lets a number stand for nothing.
    pub fn remove(&mut self, token: u64)
        ensures
            final(self)@ == old(self)@.remove(token),
    {
        let ghost before = self@;
        self.entries.remove(&token);
        proof {
            assert(self@ =~= before.remove(token));
        }
    }

    /// What a number stands for.
    pub fn find(&self, token: u64) -> (r: Option<Source>)
        ensures
            (match r {
                Some(source) => Some(source@),
                None => None,
            }) == source_of(self@, token),
    {
        if token == LISTENER_TOKEN {
            Some(Source::Listener)
        } else if token == SIGNAL_TOKEN {
            Some(Source::Signal)
        } else if token == TIMER_TOKEN {
            Some(Source::Timer)
        } else {
            match self.entries.get(&token) {
                Some(source) => Some(source.copy()),
                None => None,
            }
        }
    }
}

/// What an event of a client asks for.
#[derive(Clone, Copy, Debug, PartialEq, Eq, Structural)]
pub struct ClientStep {
    pub remove: bool,
    pub flush: bool,
    pub receive: bool,
}

/// What an event of a client asks for: a client that has gone is removed; else what waits
/// is sent, before what has come is read.
pub fn client_step(event: ReadyEvent) -> (r: ClientStep)
    ensures
        r.remove == event.hangup,
        r.flush == (!event.hangup && event.writable),
        r.receive == (!event.hangup && event.readable),
{
    ClientStep {
        remove: event.hangup,
        flush: !event.hangup && event.writable,
        receive: !event.hangup && event.readable,
    }
}

/// What a process that is being registered waits for: its own descriptor, its readiness
/// socket, and its cgroup are added to the reactor in this order.
#[derive(Clone, Copy, Debug, PartialEq, Eq, Structural)]
pub enum Stage {
    Process,
    Notification,
    Domain,
}

/// The numbers of a registered process.
#[derive(Clone, Copy, Debug, PartialEq, Eq, Structural)]
pub struct ProcessTokens {
    pub process: u64,
    pub notification: Option<u64>,
    pub domain: Option<u64>,
}

/// What is undone where a process cannot be registered. The process is killed and reaped in
/// any case.
#[derive(Clone, Copy, Debug, PartialEq, Eq, Structural)]
pub struct Cleanup {
    pub remove_process: bool,
    pub remove_notification: bool,
    pub kill_domain: bool,
}

/// What is done next about a process that is being registered.
#[derive(Clone, Copy, Debug, PartialEq, Eq, Structural)]
pub enum RegistrationStep {
    Add { stage: Stage, token: u64 },
    Registered(ProcessTokens),
    Failed(Cleanup),
}

/// A process that is being registered.
#[derive(Debug)]
pub struct Registration {
    source: Source,
    has_notification: bool,
    has_domain: bool,
    stage: Stage,
    tokens: ProcessTokens,
    current: u64,
}

/// What a [`Registration`] holds.
#[verifier::ext_equal]
pub struct RegistrationModel {
    pub source: SourceModel,
    pub has_notification: bool,
    pub has_domain: bool,
    pub stage: Stage,
    pub tokens: ProcessTokens,
    pub current: u64,
}

impl View for Registration {
    type V = RegistrationModel;

    closed spec fn view(&self) -> RegistrationModel {
        RegistrationModel {
            source: self.source@,
            has_notification: self.has_notification,
            has_domain: self.has_domain,
            stage: self.stage,
            tokens: self.tokens,
            current: self.current,
        }
    }
}

/// The source of the readiness messages of a process.
pub open spec fn notify_source(source: SourceModel, token: u64) -> SourceModel {
    match source {
        SourceModel::Process { service, generation } => SourceModel::Notify {
            service,
            generation,
            token,
        },
        _ => source,
    }
}

/// The table with what was just added.
pub open spec fn with_added(
    table: Map<u64, SourceModel>,
    r: RegistrationModel,
) -> Map<u64, SourceModel> {
    match r.stage {
        Stage::Notification => table.insert(r.current, notify_source(r.source, r.current)),
        _ => table.insert(r.current, r.source),
    }
}

/// The table without the numbers of a process.
pub open spec fn without_tokens(
    table: Map<u64, SourceModel>,
    tokens: ProcessTokens,
) -> Map<u64, SourceModel> {
    let first = table.remove(tokens.process);
    let second = match tokens.notification {
        Some(token) => first.remove(token),
        None => first,
    };
    match tokens.domain {
        Some(token) => second.remove(token),
        None => second,
    }
}

/// The numbers with the one that was just added.
pub open spec fn with_token(r: RegistrationModel) -> ProcessTokens {
    match r.stage {
        Stage::Process => r.tokens,
        Stage::Notification => ProcessTokens { notification: Some(r.current), ..r.tokens },
        Stage::Domain => ProcessTokens { domain: Some(r.current), ..r.tokens },
    }
}

/// What is added next, where anything is.
pub open spec fn next_stage(r: RegistrationModel) -> Option<Stage> {
    match r.stage {
        Stage::Process => if r.has_notification {
            Some(Stage::Notification)
        } else if r.has_domain {
            Some(Stage::Domain)
        } else {
            None
        },
        Stage::Notification => if r.has_domain {
            Some(Stage::Domain)
        } else {
            None
        },
        Stage::Domain => None,
    }
}

/// What is undone where adding fails: what was added before, and the processes of the
/// cgroup, which by then may hold more than the process itself.
pub open spec fn cleanup_of(r: RegistrationModel) -> Cleanup {
    Cleanup {
        remove_process: r.stage != Stage::Process,
        remove_notification: r.stage == Stage::Domain && r.has_notification,
        kill_domain: r.stage == Stage::Domain,
    }
}

impl Registration {
    /// Begins to register a process whose events come from the source. The number is the
    /// first to be added.
    pub fn begin(source: Source, has_notification: bool, has_domain: bool, token: u64) -> (r:
        Registration)
        ensures
            r@ == (RegistrationModel {
                source: source@,
                has_notification,
                has_domain,
                stage: Stage::Process,
                tokens: ProcessTokens { process: token, notification: None, domain: None },
                current: token,
            }),
    {
        Registration {
            source,
            has_notification,
            has_domain,
            stage: Stage::Process,
            tokens: ProcessTokens { process: token, notification: None, domain: None },
            current: token,
        }
    }

    /// Takes note of whether adding succeeded, and says what is done next. Where it failed,
    /// no number of the process stands for anything any more.
    pub fn advance(
        &mut self,
        added: bool,
        allocator: &mut TokenAllocator,
        table: &mut SourceTable,
    ) -> (r: RegistrationStep)
        ensures
            !added ==> {
                &&& r == RegistrationStep::Failed(cleanup_of(old(self)@))
                &&& final(table)@ == without_tokens(old(table)@, old(self)@.tokens)
                &&& final(allocator).upcoming() == old(allocator).upcoming()
                &&& final(self)@ == old(self)@
            },
            added ==> {
                let tokens = with_token(old(self)@);
                &&& final(table)@ == with_added(old(table)@, old(self)@)
                &&& match next_stage(old(self)@) {
                    None => {
                        &&& r == RegistrationStep::Registered(tokens)
                        &&& final(allocator).upcoming() == old(allocator).upcoming()
                        &&& final(self)@ == (RegistrationModel { tokens, ..old(self)@ })
                    },
                    Some(stage) => {
                        let token = old(allocator).upcoming();
                        &&& r == (RegistrationStep::Add { stage, token })
                        &&& final(allocator).upcoming() == deadline::next_token(token)
                        &&& final(self)@ == (RegistrationModel {
                            tokens,
                            stage,
                            current: token,
                            ..old(self)@
                        })
                    },
                }
            },
    {
        if !added {
            table.remove(self.tokens.process);
            if let Some(token) = self.tokens.notification {
                table.remove(token);
            }
            if let Some(token) = self.tokens.domain {
                table.remove(token);
            }
            return RegistrationStep::Failed(
                Cleanup {
                    remove_process: self.stage != Stage::Process,
                    remove_notification: self.stage == Stage::Domain && self.has_notification,
                    kill_domain: self.stage == Stage::Domain,
                },
            );
        }
        let source = match self.stage {
            Stage::Notification => match &self.source {
                Source::Process { service, generation } => Source::Notify {
                    service: service.clone(),
                    generation: *generation,
                    token: self.current,
                },
                other => other.copy(),
            },
            _ => self.source.copy(),
        };
        table.insert(self.current, source);
        let next = match self.stage {
            Stage::Process => if self.has_notification {
                Some(Stage::Notification)
            } else if self.has_domain {
                Some(Stage::Domain)
            } else {
                None
            },
            Stage::Notification => {
                self.tokens = ProcessTokens {
                    process: self.tokens.process,
                    notification: Some(self.current),
                    domain: self.tokens.domain,
                };
                if self.has_domain {
                    Some(Stage::Domain)
                } else {
                    None
                }
            },
            Stage::Domain => {
                self.tokens = ProcessTokens {
                    process: self.tokens.process,
                    notification: self.tokens.notification,
                    domain: Some(self.current),
                };
                None
            },
        };
        match next {
            None => RegistrationStep::Registered(self.tokens),
            Some(stage) => {
                let token = allocator.allocate();
                self.stage = stage;
                self.current = token;
                RegistrationStep::Add { stage, token }
            },
        }
    }
}

/// The registration of a process that has just begun.
pub open spec fn begun(
    source: SourceModel,
    has_notification: bool,
    has_domain: bool,
    token: u64,
) -> RegistrationModel {
    RegistrationModel {
        source,
        has_notification,
        has_domain,
        stage: Stage::Process,
        tokens: ProcessTokens { process: token, notification: None, domain: None },
        current: token,
    }
}

/// A registration once its current number was added and the next one handed out.
pub open spec fn advanced(r: RegistrationModel, stage: Stage, token: u64) -> RegistrationModel {
    RegistrationModel { tokens: with_token(r), stage, current: token, ..r }
}

/// A process that cannot be registered leaves nothing behind: whichever step fails, the
/// numbers stand for what they stood for before, as long as those of the process were not
/// in use.
pub proof fn rollback_law(
    table: Map<u64, SourceModel>,
    source: SourceModel,
    has_domain: bool,
    first: u64,
    second: u64,
    third: u64,
)
    requires
        !table.contains_key(first),
        !table.contains_key(second),
        first != second,
    ensures
        ({
            let plain = begun(source, false, has_domain, first);
            let notifying = begun(source, true, has_domain, first);
            let second_step = advanced(notifying, Stage::Notification, second);
            &&& without_tokens(table, plain.tokens) == table
            &&& without_tokens(
                with_added(table, plain),
                advanced(plain, Stage::Domain, second).tokens,
            ) == table
            &&& without_tokens(with_added(table, notifying), second_step.tokens) == table
            &&& without_tokens(
                with_added(with_added(table, notifying), second_step),
                advanced(second_step, Stage::Domain, third).tokens,
            ) == table
        }),
{
    let plain = begun(source, false, has_domain, first);
    let notifying = begun(source, true, has_domain, first);
    let second_step = advanced(notifying, Stage::Notification, second);
    assert(without_tokens(table, plain.tokens) =~= table);
    assert(without_tokens(
        with_added(table, plain),
        advanced(plain, Stage::Domain, second).tokens,
    ) =~= table);
    assert(without_tokens(with_added(table, notifying), second_step.tokens) =~= table);
    assert(without_tokens(
        with_added(with_added(table, notifying), second_step),
        advanced(second_step, Stage::Domain, third).tokens,
    ) =~= table);
}

/// In which order a process is registered: itself, then its readiness socket where it has one,
/// then its cgroup where it has one. Each number that was added stands for the process, that
/// of the socket for its messages, and is remembered as what it is for.
pub proof fn registration_law(r: RegistrationModel, table: Map<u64, SourceModel>)
    ensures
        next_stage(r) == Some(Stage::Notification) <==> r.stage == Stage::Process
            && r.has_notification,
        next_stage(r) == Some(Stage::Domain) <==> r.has_domain && (r.stage == Stage::Notification
            || r.stage == Stage::Process && !r.has_notification),
        next_stage(r) != Some(Stage::Process),
        with_token(r).process == r.tokens.process,
        r.stage == Stage::Notification ==> with_token(r).notification == Some(r.current)
            && with_token(r).domain == r.tokens.domain,
        r.stage == Stage::Domain ==> with_token(r).domain == Some(r.current)
            && with_token(r).notification == r.tokens.notification,
        r.stage == Stage::Process ==> with_token(r) == r.tokens,
        with_added(table, r).contains_key(r.current),
        r.stage != Stage::Notification ==> with_added(table, r)[r.current] == r.source,
        r.stage == Stage::Notification ==> (r.source matches SourceModel::Process {
            service,
            generation,
        } ==> with_added(table, r)[r.current] == (SourceModel::Notify {
            service,
            generation,
            token: r.current,
        })),
        forall|other: u64|
            other != r.current ==> (with_added(table, r).contains_key(other)
                <==> #[trigger] table.contains_key(other)),
{
}

/// What is undone where a process cannot be registered: what was added of it, and no more; its
/// cgroup is killed where only that was left to add.
pub proof fn cleanup_law(r: RegistrationModel)
    ensures
        cleanup_of(r).remove_process <==> r.stage == Stage::Notification || r.stage
            == Stage::Domain,
        cleanup_of(r).remove_notification <==> r.stage == Stage::Domain && r.has_notification,
        cleanup_of(r).kill_domain <==> r.stage == Stage::Domain,
{
}

/// What a number stands for: what it was last set to, and nothing where it was taken out or
/// never set. The numbers of the fixed sources stand for these, whatever is set.
pub proof fn source_law(table: Map<u64, SourceModel>, token: u64, other: u64, source: SourceModel)
    ensures
        token > 3 ==> source_of(table.insert(token, source), token) == Some(source),
        token > 3 ==> source_of(table.remove(token), token) is None,
        source_of(table, 1) == Some(SourceModel::Listener),
        source_of(table, 2) == Some(SourceModel::Signal),
        source_of(table, 3) == Some(SourceModel::Timer),
        other != token ==> source_of(table.insert(token, source), other) == source_of(table, other),
        other != token ==> source_of(table.remove(token), other) == source_of(table, other),
        MAX_CLIENTS == 128,
{
}

} // verus!
