//! Compilation of a Sage service specification, which knows no init system, into the
//! values of a native definition.

use vstd::prelude::*;

use crate::environment::Environment;
use crate::model;
use crate::model::{
    ConfigError, ErrorModel, IdentityModel, IdentitySpec, ManagerScope, ProcessType, RawActions,
    RawDependencies, RawProcess, RawReadiness, RawServiceDefinition, RestartPolicy,
    ServiceDefinition, ServiceId,
};
use crate::text;

verus! {

broadcast use vstd::string::group_string_axioms;

/// The service table of a Sage specification.
#[derive(Debug)]
pub struct RawService {
    pub name: String,
    pub description: String,
    pub command: Option<Vec<String>>,
    pub exec_start: Option<String>,
    pub stop_command: Option<Vec<String>>,
    pub exec_stop: Option<String>,
    pub reload_command: Option<Vec<String>>,
    pub exec_reload: Option<String>,
    pub user: Option<IdentitySpec>,
    pub group: Option<IdentitySpec>,
    pub process_type: Option<String>,
    pub readiness: Option<String>,
    pub restart: Option<String>,
    pub working_directory: Option<String>,
    pub environment: Environment,
    pub requires: Vec<String>,
    pub wants: Vec<String>,
    pub after: Vec<String>,
    pub before: Vec<String>,
    pub conflicts: Vec<String>,
    pub runtime: Option<String>,
    pub pid_file: Option<String>,
}

impl RawService {
    /// The service table in which only the name is given.
    pub fn new(name: &str) -> (r: RawService)
        ensures
            r.name@ == name@,
            r.description@ == Seq::<char>::empty(),
            r.command is None,
            r.exec_start is None,
            r.stop_command is None,
            r.exec_stop is None,
            r.reload_command is None,
            r.exec_reload is None,
            r.user is None,
            r.group is None,
            r.process_type is None,
            r.readiness is None,
            r.restart is None,
            r.working_directory is None,
            r.environment@.len() == 0,
            r.requires@.len() == 0,
            r.wants@.len() == 0,
            r.after@.len() == 0,
            r.before@.len() == 0,
            r.conflicts@.len() == 0,
            r.runtime is None,
            r.pid_file is None,
    {
        RawService {
            name: text::owned(name),
            description: String::new(),
            command: None,
            exec_start: None,
            stop_command: None,
            exec_stop: None,
            reload_command: None,
            exec_reload: None,
            user: None,
            group: None,
            process_type: None,
            readiness: None,
            restart: None,
            working_directory: None,
            environment: Environment::new(),
            requires: Vec::new(),
            wants: Vec::new(),
            after: Vec::new(),
            before: Vec::new(),
            conflicts: Vec::new(),
            runtime: None,
            pid_file: None,
        }
    }
}

/// The values of one Sage specification, before any check.
#[derive(Debug)]
pub struct RawDocument {
    pub schema_version: u32,
    pub service: RawService,
}

/// What a compilation error says.
#[verifier::ext_equal]
pub enum SageErrorModel {
    Parse(Seq<char>),
    Schema(u32),
    Invalid { field: Seq<char>, reason: Seq<char> },
    Serialize(Seq<char>),
    Generated(ErrorModel),
}

/// Why a Sage specification is refused.
#[derive(Debug)]
pub enum SageError {
    Parse(String),
    Schema(u32),
    Invalid { field: &'static str, reason: String },
    Serialize(String),
    Generated(ConfigError),
}

impl View for SageError {
    type V = SageErrorModel;

    open spec fn view(&self) -> SageErrorModel {
        match *self {
            SageError::Parse(message) => SageErrorModel::Parse(message@),
            SageError::Schema(found) => SageErrorModel::Schema(found),
            SageError::Invalid { field, reason } => SageErrorModel::Invalid {
                field: field@,
                reason: reason@,
            },
            SageError::Serialize(message) => SageErrorModel::Serialize(message@),
            SageError::Generated(error) => SageErrorModel::Generated(error@),
        }
    }
}

/// The text of a compilation error.
pub open spec fn sage_error_message(error: SageErrorModel) -> Seq<char> {
    match error {
        SageErrorModel::Parse(message) => "invalid Sage service TOML: "@ + message,
        SageErrorModel::Schema(found) => "unsupported Sage service schema "@ + text::decimal(
            found as nat,
        ),
        SageErrorModel::Invalid { field, reason } => "invalid Sage service "@ + field + ": "@
            + reason,
        SageErrorModel::Serialize(message) => "failed to serialize native service: "@ + message,
        SageErrorModel::Generated(error) => "generated native service is invalid: "@
            + model::error_message(error),
    }
}

impl SageError {
    /// The text of the error.
    pub fn message(&self) -> (r: String)
        ensures
            r@ == sage_error_message(self@),
    {
        match self {
            SageError::Parse(message) => text::concat2(
                "invalid Sage service TOML: ",
                message.as_str(),
            ),
            SageError::Schema(found) => {
                let number = text::decimal_string(*found as u64);
                text::concat2("unsupported Sage service schema ", number.as_str())
            },
            SageError::Invalid { field, reason } => {
                let mut r = text::concat3("invalid Sage service ", field, ": ");
                r.append(reason.as_str());
                r
            },
            SageError::Serialize(message) => text::concat2(
                "failed to serialize native service: ",
                message.as_str(),
            ),
            SageError::Generated(error) => {
                let inner = error.message();
                text::concat2("generated native service is invalid: ", inner.as_str())
            },
        }
    }
}

/// A refusal of a field.
pub open spec fn invalid(field: Seq<char>, reason: Seq<char>) -> SageErrorModel {
    SageErrorModel::Invalid { field, reason }
}

/// The words that `shlex` splits a command into, as a POSIX shell would, or nothing where
/// it cannot.
pub uninterp spec fn shell_words(command: Seq<char>) -> Option<Seq<Seq<char>>>;

/// Calls `shlex::split`. Its result depends on the command alone.
#[verifier::external_body]
fn split_words(command: &str) -> (r: Option<Vec<String>>)
    ensures
        text::optional_texts(r) == shell_words(command@),
{
    shlex::split(command)
}

/// The words of a command, or why it has none.
pub open spec fn words_result(field: Seq<char>, words: Option<Seq<Seq<char>>>) -> Result<
    Seq<Seq<char>>,
    SageErrorModel,
> {
    match words {
        Some(list) => Ok(list),
        None => Err(invalid(field, "contains unmatched quotes or invalid shell words"@)),
    }
}

/// The result of a compilation step over lists of texts.
pub open spec fn texts_outcome(r: Result<Vec<String>, SageError>) -> Result<
    Seq<Seq<char>>,
    SageErrorModel,
> {
    match r {
        Ok(list) => Ok(text::texts(list@)),
        Err(e) => Err(e@),
    }
}

/// The words of a command that was split, or why it has none.
pub fn checked_words(field: &'static str, words: Option<Vec<String>>) -> (r: Result<
    Vec<String>,
    SageError,
>)
    ensures
        texts_outcome(r) == words_result(field@, text::optional_texts(words)),
{
    match words {
        Some(list) => Ok(list),
        None => Err(
            SageError::Invalid {
                field,
                reason: text::owned("contains unmatched quotes or invalid shell words"),
            },
        ),
    }
}

/// The words of a command of the first schema, or why it has none.
pub open spec fn legacy_result(field: Seq<char>, command: Option<Seq<char>>) -> Result<
    Seq<Seq<char>>,
    SageErrorModel,
> {
    match command {
        None => Err(invalid(field, "schema v1 requires this command"@)),
        Some(command) => words_result(field, shell_words(command)),
    }
}

fn split_v1(field: &'static str, command: &Option<String>) -> (r: Result<Vec<String>, SageError>)
    ensures
        texts_outcome(r) == legacy_result(field@, text::optional_text(*command)),
{
    match command {
        None => Err(
            SageError::Invalid { field, reason: text::owned("schema v1 requires this command") },
        ),
        Some(command) => checked_words(field, split_words(command.as_str())),
    }
}

/// The command of a service, or why it has none.
pub open spec fn start_result(raw: RawDocument) -> Result<Seq<Seq<char>>, SageErrorModel> {
    let service = raw.service;
    if raw.schema_version == 1 {
        if service.command is Some {
            Err(invalid("service.command"@, "schema v1 requires exec_start"@))
        } else {
            legacy_result("service.exec_start"@, text::optional_text(service.exec_start))
        }
    } else {
        match service.command {
            Some(command) => Ok(text::texts(command@)),
            None => Err(invalid("service.command"@, "schema v2 requires an argv array"@)),
        }
    }
}

/// A helper command of a service, or why it is refused.
pub open spec fn helper_result(
    schema: u32,
    field: Seq<char>,
    argv: Option<Seq<Seq<char>>>,
    legacy: Option<Seq<char>>,
) -> Result<Option<Seq<Seq<char>>>, SageErrorModel> {
    if schema == 1 {
        match legacy {
            None => Ok(None),
            Some(command) => match legacy_result(field, Some(command)) {
                Ok(words) => Ok(Some(words)),
                Err(e) => Err(e),
            },
        }
    } else if legacy is Some {
        Err(invalid(field, "schema v2 requires an argv array"@))
    } else {
        Ok(argv)
    }
}

/// The result of a compilation step over an optional list of texts.
pub open spec fn helper_outcome(r: Result<Option<Vec<String>>, SageError>) -> Result<
    Option<Seq<Seq<char>>>,
    SageErrorModel,
> {
    match r {
        Ok(list) => Ok(text::optional_texts(list)),
        Err(e) => Err(e@),
    }
}

fn command_field(
    schema: u32,
    field: &'static str,
    argv: Option<Vec<String>>,
    legacy: &Option<String>,
) -> (r: Result<Option<Vec<String>>, SageError>)
    ensures
        helper_outcome(r) == helper_result(
            schema,
            field@,
            text::optional_texts(argv),
            text::optional_text(*legacy),
        ),
{
    if schema == 1 {
        match legacy {
            None => Ok(None),
            Some(_) => match split_v1(field, legacy) {
                Ok(words) => Ok(Some(words)),
                Err(e) => Err(e),
            },
        }
    } else {
        match legacy {
            Some(_) => Err(
                SageError::Invalid {
                    field,
                    reason: text::owned("schema v2 requires an argv array"),
                },
            ),
            None => Ok(argv),
        }
    }
}

/// A value that is given, or its default.
pub open spec fn value_or(value: Option<Seq<char>>, default: Seq<char>) -> Seq<char> {
    match value {
        Some(given) => given,
        None => default,
    }
}

/// The process type that a name stands for.
pub open spec fn type_result(name: Option<Seq<char>>) -> Result<ProcessType, SageErrorModel> {
    let given = value_or(name, "simple"@);
    if given == "simple"@ {
        Ok(ProcessType::Simple)
    } else if given == "oneshot"@ {
        Ok(ProcessType::Oneshot)
    } else {
        Err(
            invalid(
                "service.type"@,
                "unsupported process type "@ + text::debug_quoted(given),
            ),
        )
    }
}

/// The restart policy that a name stands for.
pub open spec fn restart_result(name: Option<Seq<char>>) -> Result<
    RestartPolicy,
    SageErrorModel,
> {
    let given = value_or(name, "no"@);
    if given == "no"@ {
        Ok(RestartPolicy::No)
    } else if given == "always"@ {
        Ok(RestartPolicy::Always)
    } else if given == "on-failure"@ {
        Ok(RestartPolicy::OnFailure)
    } else {
        Err(invalid("service.restart"@, "unsupported policy "@ + text::debug_quoted(given)))
    }
}

/// The readiness that a name stands for.
pub open spec fn readiness_result(name: Option<Seq<char>>) -> Result<
    RawReadiness,
    SageErrorModel,
> {
    let given = value_or(name, "exec"@);
    if given == "exec"@ {
        Ok(RawReadiness::Exec)
    } else if given == "notify"@ {
        Ok(RawReadiness::Notify)
    } else {
        Err(invalid("service.readiness"@, "unsupported readiness "@ + text::debug_quoted(given)))
    }
}

fn validate_process_type(name: &Option<String>) -> (r: Result<ProcessType, SageError>)
    ensures
        match r {
            Ok(kind) => type_result(text::optional_text(*name)) == Ok::<
                ProcessType,
                SageErrorModel,
            >(kind),
            Err(e) => type_result(text::optional_text(*name)) == Err::<
                ProcessType,
                SageErrorModel,
            >(e@),
        },
{
    let given: &str = match name {
        Some(given) => given.as_str(),
        None => "simple",
    };
    if text::same_text(given, "simple") {
        Ok(ProcessType::Simple)
    } else if text::same_text(given, "oneshot") {
        Ok(ProcessType::Oneshot)
    } else {
        let quoted = text::debug_text(given);
        Err(
            SageError::Invalid {
                field: "service.type",
                reason: text::concat2("unsupported process type ", quoted.as_str()),
            },
        )
    }
}

fn validate_restart(name: &Option<String>) -> (r: Result<RestartPolicy, SageError>)
    ensures
        match r {
            Ok(policy) => restart_result(text::optional_text(*name)) == Ok::<
                RestartPolicy,
                SageErrorModel,
            >(policy),
            Err(e) => restart_result(text::optional_text(*name)) == Err::<
                RestartPolicy,
                SageErrorModel,
            >(e@),
        },
{
    let given: &str = match name {
        Some(given) => given.as_str(),
        None => "no",
    };
    if text::same_text(given, "no") {
        Ok(RestartPolicy::No)
    } else if text::same_text(given, "always") {
        Ok(RestartPolicy::Always)
    } else if text::same_text(given, "on-failure") {
        Ok(RestartPolicy::OnFailure)
    } else {
        let quoted = text::debug_text(given);
        Err(
            SageError::Invalid {
                field: "service.restart",
                reason: text::concat2("unsupported policy ", quoted.as_str()),
            },
        )
    }
}

fn validate_readiness(name: &Option<String>) -> (r: Result<RawReadiness, SageError>)
    ensures
        match r {
            Ok(readiness) => readiness_result(text::optional_text(*name)) == Ok::<
                RawReadiness,
                SageErrorModel,
            >(readiness),
            Err(e) => readiness_result(text::optional_text(*name)) == Err::<
                RawReadiness,
                SageErrorModel,
            >(e@),
        },
{
    let given: &str = match name {
        Some(given) => given.as_str(),
        None => "exec",
    };
    if text::same_text(given, "exec") {
        Ok(RawReadiness::Exec)
    } else if text::same_text(given, "notify") {
        Ok(RawReadiness::Notify)
    } else {
        let quoted = text::debug_text(given);
        Err(
            SageError::Invalid {
                field: "service.readiness",
                reason: text::concat2("unsupported readiness ", quoted.as_str()),
            },
        )
    }
}

/// The values of a native definition that are written out: what is not given is left to
/// the defaults of the native schema.
#[derive(Debug)]
pub struct NativeDocument {
    pub description: String,
    pub command: Vec<String>,
    pub kind: ProcessType,
    pub readiness: RawReadiness,
    pub user: Option<IdentitySpec>,
    pub group: Option<IdentitySpec>,
    pub working_directory: Option<String>,
    pub environment: Environment,
    pub dependencies: RawDependencies,
    pub restart: RestartPolicy,
    pub actions: RawActions,
}

/// What a [`NativeDocument`] holds.
#[verifier::ext_equal]
pub struct NativeModel {
    pub description: Seq<char>,
    pub command: Seq<Seq<char>>,
    pub kind: ProcessType,
    pub readiness: RawReadiness,
    pub user: Option<IdentityModel>,
    pub group: Option<IdentityModel>,
    pub working_directory: Option<Seq<char>>,
    pub environment: Seq<(Seq<char>, Seq<char>)>,
    pub requires: Seq<Seq<char>>,
    pub wants: Seq<Seq<char>>,
    pub after: Seq<Seq<char>>,
    pub conflicts: Seq<Seq<char>>,
    pub restart: RestartPolicy,
    pub stop: Option<Seq<Seq<char>>>,
    pub reload: Option<Seq<Seq<char>>>,
}

/// What an optional identity names.
pub open spec fn optional_identity(value: Option<IdentitySpec>) -> Option<IdentityModel> {
    match value {
        Some(identity) => Some(identity@),
        None => None,
    }
}

impl View for NativeDocument {
    type V = NativeModel;

    open spec fn view(&self) -> NativeModel {
        NativeModel {
            description: self.description@,
            command: text::texts(self.command@),
            kind: self.kind,
            readiness: self.readiness,
            user: optional_identity(self.user),
            group: optional_identity(self.group),
            working_directory: text::optional_text(self.working_directory),
            environment: self.environment@,
            requires: text::texts(self.dependencies.requires@),
            wants: text::texts(self.dependencies.wants@),
            after: text::texts(self.dependencies.after@),
            conflicts: text::texts(self.dependencies.conflicts@),
            restart: self.restart,
            stop: text::optional_texts(self.actions.stop),
            reload: text::optional_texts(self.actions.reload),
        }
    }
}

/// Whether the values of a definition file are those of a native document, with the
/// defaults of the native schema for what it leaves out.
pub open spec fn reads_as(n: NativeModel, raw: RawServiceDefinition) -> bool {
    &&& raw.schema_version == model::SCHEMA_VERSION
    &&& raw.description@ == n.description
    &&& text::texts(raw.process.command@) == n.command
    &&& raw.process.kind == n.kind
    &&& raw.process.readiness == n.readiness
    &&& optional_identity(raw.process.user) == n.user
    &&& optional_identity(raw.process.group) == n.group
    &&& raw.process.supplementary_groups@.len() == 0
    &&& raw.process.working_directory@ == value_or(n.working_directory, "/"@)
    &&& raw.process.environment@ == n.environment
    &&& raw.process.umask == 0o022
    &&& text::texts(raw.dependencies.requires@) == n.requires
    &&& text::texts(raw.dependencies.wants@) == n.wants
    &&& text::texts(raw.dependencies.after@) == n.after
    &&& text::texts(raw.dependencies.conflicts@) == n.conflicts
    &&& raw.supervision.restart == n.restart
    &&& raw.supervision.start_timeout_ms == 30_000
    &&& raw.supervision.stop_timeout_ms == 10_000
    &&& raw.supervision.restart_limit == 5
    &&& raw.supervision.restart_window_ms == 300_000
    &&& raw.supervision.restart_reset_ms == 300_000
    &&& raw.supervision.restart_backoff_max_ms == 30_000
    &&& text::optional_texts(raw.actions.stop) == n.stop
    &&& text::optional_texts(raw.actions.reload) == n.reload
    &&& raw.io.stdout is Console
    &&& raw.io.stderr is Console
}

/// The service that a native document describes, or why it is refused.
pub open spec fn native_result(id: Seq<char>, n: NativeModel) -> Result<
    model::ServiceModel,
    ErrorModel,
> {
    model::definition_result(
        id,
        choose|raw: RawServiceDefinition| reads_as(n, raw),
        ManagerScope::System,
    )
}

/// A native document describes one service, whichever values it is read as.
pub proof fn native_result_law(id: Seq<char>, n: NativeModel, raw: RawServiceDefinition)
    requires
        reads_as(n, raw),
    ensures
        native_result(id, n) == model::definition_result(id, raw, ManagerScope::System),
{
    let other = choose|raw: RawServiceDefinition| reads_as(n, raw);
    assert(reads_as(n, other));
    assert(model::identities(raw.process.supplementary_groups@) =~= model::identities(
        other.process.supplementary_groups@,
    ));
    assert(model::named_identities(raw.process) =~= model::named_identities(other.process));
    assert(model::process_result(raw.process, ManagerScope::System) == model::process_result(
        other.process,
        ManagerScope::System,
    ));
    assert(model::raw_dependencies_result(raw.dependencies, id) == model::raw_dependencies_result(
        other.dependencies,
        id,
    ));
    assert(model::supervision_result(raw.supervision) == model::supervision_result(
        other.supervision,
    ));
    assert(model::actions_result(raw.actions) == model::actions_result(other.actions));
    assert(model::io_result(raw.io) == model::io_result(other.io));
}

fn copy_identity(value: &Option<IdentitySpec>) -> (r: Option<IdentitySpec>)
    ensures
        optional_identity(r) == optional_identity(*value),
{
    match value {
        Some(identity) => Some(identity.clone()),
        None => None,
    }
}

fn copy_command(value: &Option<Vec<String>>) -> (r: Option<Vec<String>>)
    ensures
        text::optional_texts(r) == text::optional_texts(*value),
{
    match value {
        Some(list) => Some(text::clone_strings(list)),
        None => None,
    }
}

impl NativeDocument {
    /// The values that the document is read as.
    pub fn definition(&self) -> (r: RawServiceDefinition)
        ensures
            reads_as(self@, r),
    {
        let mut process = RawProcess::new(text::clone_strings(&self.command));
        process.kind = self.kind;
        process.readiness = self.readiness;
        process.user = copy_identity(&self.user);
        process.group = copy_identity(&self.group);
        if let Some(directory) = &self.working_directory {
            process.working_directory = directory.clone();
        }
        process.environment = self.environment.copy();
        let mut raw = RawServiceDefinition::new(process);
        raw.description = self.description.clone();
        raw.dependencies = RawDependencies {
            requires: text::clone_strings(&self.dependencies.requires),
            wants: text::clone_strings(&self.dependencies.wants),
            after: text::clone_strings(&self.dependencies.after),
            conflicts: text::clone_strings(&self.dependencies.conflicts),
        };
        raw.supervision.restart = self.restart;
        raw.actions = RawActions {
            stop: copy_command(&self.actions.stop),
            reload: copy_command(&self.actions.reload),
        };
        raw
    }
}

/// A native service: its name and the text of its definition.
#[derive(Debug, PartialEq, Eq)]
pub struct CompiledService {
    pub id: ServiceId,
    pub toml: String,
}

/// A compiled service before its definition is written out.
#[derive(Debug)]
pub struct NativeService {
    pub id: ServiceId,
    pub document: NativeDocument,
}

impl NativeService {
    /// The compiled service with the text that its document was written as, or with the
    /// writer's message.
    pub fn written(self, toml: Result<String, String>) -> (r: Result<CompiledService, SageError>)
        ensures
            match toml {
                Ok(source) => r matches Ok(compiled) && compiled.id@ == self.id@ && compiled.toml@
                    == source@,
                Err(message) => r matches Err(e) && e@ == SageErrorModel::Serialize(message@),
            },
    {
        match toml {
            Ok(toml) => Ok(CompiledService { id: self.id, toml }),
            Err(message) => Err(SageError::Serialize(message)),
        }
    }
}

/// Why the fields that Loom has no use for are refused.
pub open spec fn unsupported_error(service: RawService) -> Option<SageErrorModel> {
    if service.before@.len() > 0 {
        Some(invalid("service.before"@, "Loom uses after edges only"@))
    } else if value_or(text::optional_text(service.runtime), Seq::empty()).len() > 0 {
        Some(
            invalid(
                "service.runtime"@,
                "Sage must resolve channel bindings before compilation"@,
            ),
        )
    } else if service.pid_file is Some {
        Some(
            invalid(
                "service.pid_file"@,
                "Loom supervises foreground processes and does not read PID files"@,
            ),
        )
    } else {
        None
    }
}

fn check_unsupported(service: &RawService) -> (r: Result<(), SageError>)
    ensures
        match r {
            Ok(_) => unsupported_error(*service) is None,
            Err(e) => unsupported_error(*service) == Some(e@),
        },
{
    if service.before.len() > 0 {
        return Err(
            SageError::Invalid {
                field: "service.before",
                reason: text::owned("Loom uses after edges only"),
            },
        );
    }
    if let Some(runtime) = &service.runtime {
        if runtime.as_str().unicode_len() > 0 {
            return Err(
                SageError::Invalid {
                    field: "service.runtime",
                    reason: text::owned("Sage must resolve channel bindings before compilation"),
                },
            );
        }
    }
    if service.pid_file.is_some() {
        return Err(
            SageError::Invalid {
                field: "service.pid_file",
                reason: text::owned(
                    "Loom supervises foreground processes and does not read PID files",
                ),
            },
        );
    }
    Ok(())
}

/// What the fields of a specification that may be refused stand for.
#[verifier::ext_equal]
pub struct CheckedFields {
    pub command: Seq<Seq<char>>,
    pub kind: ProcessType,
    pub stop: Option<Seq<Seq<char>>>,
    pub reload: Option<Seq<Seq<char>>>,
    pub restart: RestartPolicy,
    pub readiness: RawReadiness,
}

/// What the fields of a specification stand for, or why the first wrong one is refused:
/// type, command, stop command, reload command, restart policy, readiness.
pub open spec fn fields_result(raw: RawDocument) -> Result<CheckedFields, SageErrorModel> {
    let service = raw.service;
    match type_result(text::optional_text(service.process_type)) {
        Err(e) => Err(e),
        Ok(kind) => match start_result(raw) {
            Err(e) => Err(e),
            Ok(command) => match helper_result(
                raw.schema_version,
                "service stop command"@,
                text::optional_texts(service.stop_command),
                text::optional_text(service.exec_stop),
            ) {
                Err(e) => Err(e),
                Ok(stop) => match helper_result(
                    raw.schema_version,
                    "service reload command"@,
                    text::optional_texts(service.reload_command),
                    text::optional_text(service.exec_reload),
                ) {
                    Err(e) => Err(e),
                    Ok(reload) => match restart_result(text::optional_text(service.restart)) {
                        Err(e) => Err(e),
                        Ok(restart) => match readiness_result(
                            text::optional_text(service.readiness),
                        ) {
                            Err(e) => Err(e),
                            Ok(readiness) => Ok(
                                CheckedFields {
                                    command,
                                    kind,
                                    stop,
                                    reload,
                                    restart,
                                    readiness,
                                },
                            ),
                        },
                    },
                },
            },
        },
    }
}

/// The native document of a specification.
pub open spec fn native_of(service: RawService, fields: CheckedFields) -> NativeModel {
    NativeModel {
        description: service.description@,
        command: fields.command,
        kind: fields.kind,
        readiness: fields.readiness,
        user: optional_identity(service.user),
        group: optional_identity(service.group),
        working_directory: text::optional_text(service.working_directory),
        environment: service.environment@,
        requires: text::texts(service.requires@),
        wants: text::texts(service.wants@),
        after: text::texts(service.after@),
        conflicts: text::texts(service.conflicts@),
        restart: fields.restart,
        stop: fields.stop,
        reload: fields.reload,
    }
}

/// The native document that a specification compiles to, or why it is refused: an
/// unreadable text, an unknown schema, a wrong name, a field that Loom has no use for, a
/// wrong field, or a definition that the native schema refuses.
pub open spec fn compile_result(document: Result<RawDocument, String>) -> Result<
    NativeModel,
    SageErrorModel,
> {
    match document {
        Err(message) => Err(SageErrorModel::Parse(message@)),
        Ok(raw) => if raw.schema_version != 1 && raw.schema_version != 2 {
            Err(SageErrorModel::Schema(raw.schema_version))
        } else if !model::valid_identifier(raw.service.name@) {
            Err(SageErrorModel::Generated(ErrorModel::InvalidServiceId(raw.service.name@)))
        } else {
            match unsupported_error(raw.service) {
                Some(e) => Err(e),
                None => match fields_result(raw) {
                    Err(e) => Err(e),
                    Ok(fields) => {
                        let native = native_of(raw.service, fields);
                        match native_result(raw.service.name@, native) {
                            Err(e) => Err(SageErrorModel::Generated(e)),
                            Ok(_) => Ok(native),
                        }
                    },
                },
            }
        },
    }
}

/// Compiles one specification, given what reading its text produced: its values, or the
/// reader's message. No shell is run.
pub fn compile_service(document: Result<RawDocument, String>) -> (r: Result<
    NativeService,
    SageError,
>)
    ensures
        match r {
            Ok(service) => {
                &&& compile_result(document) == Ok::<NativeModel, SageErrorModel>(
                    service.document@,
                )
                &&& document matches Ok(raw) && service.id@ == raw.service.name@
                &&& native_result(service.id@, service.document@) is Ok
                &&& document matches Ok(raw) && {
                    let given = raw.service;
                    let made = service.document;
                    &&& made.description@ == given.description@
                    &&& text::texts(made.dependencies.requires@) == text::texts(given.requires@)
                    &&& text::texts(made.dependencies.wants@) == text::texts(given.wants@)
                    &&& text::texts(made.dependencies.after@) == text::texts(given.after@)
                    &&& text::texts(made.dependencies.conflicts@) == text::texts(given.conflicts@)
                    &&& made.environment@ == given.environment@
                    &&& text::optional_text(made.working_directory) == text::optional_text(
                        given.working_directory,
                    )
                    &&& made.user == given.user
                    &&& made.group == given.group
                    &&& raw.schema_version == 1 ==> given.exec_start is Some && shell_words(
                        given.exec_start->0@,
                    ) == Some(text::texts(made.command@))
                    &&& raw.schema_version == 2 ==> given.command is Some && text::texts(
                        made.command@,
                    ) == text::texts(given.command->0@)
                }
            },
            Err(e) => compile_result(document) == Err::<NativeModel, SageErrorModel>(e@),
        },
{
    let raw = match document {
        Ok(raw) => raw,
        Err(message) => return Err(SageError::Parse(message)),
    };
    let ghost given = raw;
    let schema = raw.schema_version;
    if schema != 1 && schema != 2 {
        return Err(SageError::Schema(schema));
    }
    let service = raw.service;
    let id = match ServiceId::new(service.name.as_str()) {
        Ok(id) => id,
        Err(e) => return Err(SageError::Generated(e)),
    };
    if let Err(e) = check_unsupported(&service) {
        return Err(e);
    }
    let kind = match validate_process_type(&service.process_type) {
        Ok(kind) => kind,
        Err(e) => return Err(e),
    };
    let command = if schema == 1 {
        if service.command.is_some() {
            return Err(
                SageError::Invalid {
                    field: "service.command",
                    reason: text::owned("schema v1 requires exec_start"),
                },
            );
        }
        match split_v1("service.exec_start", &service.exec_start) {
            Ok(command) => command,
            Err(e) => return Err(e),
        }
    } else {
        match service.command {
            Some(command) => command,
            None => {
                return Err(
                    SageError::Invalid {
                        field: "service.command",
                        reason: text::owned("schema v2 requires an argv array"),
                    },
                );
            },
        }
    };
    let stop = match command_field(
        schema,
        "service stop command",
        service.stop_command,
        &service.exec_stop,
    ) {
        Ok(stop) => stop,
        Err(e) => return Err(e),
    };
    let reload = match command_field(
        schema,
        "service reload command",
        service.reload_command,
        &service.exec_reload,
    ) {
        Ok(reload) => reload,
        Err(e) => return Err(e),
    };
    let restart = match validate_restart(&service.restart) {
        Ok(restart) => restart,
        Err(e) => return Err(e),
    };
    let readiness = match validate_readiness(&service.readiness) {
        Ok(readiness) => readiness,
        Err(e) => return Err(e),
    };
    let native = NativeDocument {
        description: service.description,
        command,
        kind,
        readiness,
        user: service.user,
        group: service.group,
        working_directory: service.working_directory,
        environment: service.environment,
        dependencies: RawDependencies {
            requires: service.requires,
            wants: service.wants,
            after: service.after,
            conflicts: service.conflicts,
        },
        restart,
        actions: RawActions { stop, reload },
    };
    let definition = native.definition();
    proof {
        let fields = fields_result(given)->Ok_0;
        assert(native@ =~= native_of(given.service, fields));
        native_result_law(id@, native@, definition);
    }
    match ServiceDefinition::parse(id.clone(), Ok(definition), ManagerScope::System) {
        Ok(_) => Ok(NativeService { id, document: native }),
        Err(e) => Err(SageError::Generated(e)),
    }
}

/// What a specification compiles to: each value of the native document is the value of the
/// same name, a command of the first schema is the words of its text and one of the second
/// its list, and the process type, the restart policy and the readiness are those that the
/// names stand for, or the defaults.
pub proof fn compile_law(raw: RawDocument, n: NativeModel)
    requires
        compile_result(Ok(raw)) == Ok::<NativeModel, SageErrorModel>(n),
    ensures
        n.description == raw.service.description@,
        n.requires == text::texts(raw.service.requires@),
        n.wants == text::texts(raw.service.wants@),
        n.after == text::texts(raw.service.after@),
        n.conflicts == text::texts(raw.service.conflicts@),
        n.environment == raw.service.environment@,
        n.user == optional_identity(raw.service.user),
        n.group == optional_identity(raw.service.group),
        n.working_directory == text::optional_text(raw.service.working_directory),
        raw.schema_version == 1 ==> {
            &&& raw.service.exec_start is Some
            &&& shell_words(raw.service.exec_start->0@) == Some(n.command)
            &&& match raw.service.exec_stop {
                Some(command) => n.stop is Some && shell_words(command@) == n.stop,
                None => n.stop is None,
            }
            &&& match raw.service.exec_reload {
                Some(command) => n.reload is Some && shell_words(command@) == n.reload,
                None => n.reload is None,
            }
        },
        raw.schema_version == 2 ==> {
            &&& raw.service.command is Some
            &&& n.command == text::texts(raw.service.command->0@)
            &&& n.stop == text::optional_texts(raw.service.stop_command)
            &&& n.reload == text::optional_texts(raw.service.reload_command)
        },
        match raw.service.process_type {
            Some(name) => name@ == if n.kind == ProcessType::Simple {
                "simple"@
            } else {
                "oneshot"@
            },
            None => n.kind == ProcessType::Simple,
        },
        match raw.service.restart {
            Some(name) => name@ == match n.restart {
                RestartPolicy::No => "no"@,
                RestartPolicy::OnFailure => "on-failure"@,
                RestartPolicy::Always => "always"@,
            },
            None => n.restart == RestartPolicy::No,
        },
        match raw.service.readiness {
            Some(name) => name@ == match n.readiness {
                RawReadiness::Exec => "exec"@,
                RawReadiness::Notify => "notify"@,
            },
            None => n.readiness == RawReadiness::Exec,
        },
{
}

/// Whether a name is absent or one of the given ones.
pub open spec fn absent_or(name: Option<String>, names: Seq<Seq<char>>) -> bool {
    match name {
        Some(given) => names.contains(given@),
        None => true,
    }
}

/// Which specifications compile: those of the first two schemas with a valid name, without
/// anything that starts before others, that is bound to a runtime, or that writes its
/// process number to a file, with known words for type, restart and readiness, with
/// commands in the form of their schema, and whose native definition is accepted.
pub proof fn compile_accept_law(raw: RawDocument)
    ensures
        compile_result(Ok(raw)) is Ok ==> {
            let s = raw.service;
            &&& raw.schema_version == 1 || raw.schema_version == 2
            &&& model::valid_identifier(s.name@)
            &&& s.before@.len() == 0
            &&& s.runtime matches Some(runtime) ==> runtime@.len() == 0
            &&& s.pid_file is None
            &&& absent_or(s.process_type, seq!["simple"@, "oneshot"@])
            &&& absent_or(s.restart, seq!["no"@, "always"@, "on-failure"@])
            &&& absent_or(s.readiness, seq!["exec"@, "notify"@])
            &&& raw.schema_version == 1 ==> s.command is None
            &&& raw.schema_version == 2 ==> s.exec_stop is None && s.exec_reload is None
        },
        compile_result(Ok(raw)) matches Err(e) ==> {
            let s = raw.service;
            ||| raw.schema_version != 1 && raw.schema_version != 2 && e
                == SageErrorModel::Schema(raw.schema_version)
            ||| e is Generated
            ||| s.before@.len() > 0
            ||| s.runtime is Some && s.runtime->0@.len() > 0
            ||| s.pid_file is Some
            ||| !absent_or(s.process_type, seq!["simple"@, "oneshot"@])
            ||| !absent_or(s.restart, seq!["no"@, "always"@, "on-failure"@])
            ||| !absent_or(s.readiness, seq!["exec"@, "notify"@])
            ||| raw.schema_version == 1 && (s.command is Some || s.exec_start is None
                || shell_words(s.exec_start->0@) is None || s.exec_stop is Some && shell_words(
                s.exec_stop->0@,
            ) is None || s.exec_reload is Some && shell_words(s.exec_reload->0@) is None)
            ||| raw.schema_version == 2 && (s.command is None || s.exec_stop is Some
                || s.exec_reload is Some)
        },
{
    let s = raw.service;
    let types = seq!["simple"@, "oneshot"@];
    let policies = seq!["no"@, "always"@, "on-failure"@];
    let ways = seq!["exec"@, "notify"@];
    assert(types[0] == "simple"@ && types[1] == "oneshot"@);
    assert(policies[0] == "no"@ && policies[1] == "always"@ && policies[2] == "on-failure"@);
    assert(ways[0] == "exec"@ && ways[1] == "notify"@);
}

/// What a native document is read as: each value that it has is the one of the same name, and
/// what it leaves out is what a definition has by default.
pub proof fn native_values_law(n: NativeModel, raw: RawServiceDefinition)
    requires
        reads_as(n, raw),
    ensures
        raw.schema_version == 1,
        raw.description@ == n.description,
        text::texts(raw.process.command@) == n.command,
        raw.process.kind == n.kind,
        raw.process.readiness == n.readiness,
        optional_identity(raw.process.user) == n.user,
        optional_identity(raw.process.group) == n.group,
        raw.process.supplementary_groups@.len() == 0,
        n.working_directory matches Some(directory) ==> raw.process.working_directory@ == directory,
        n.working_directory is None ==> raw.process.working_directory@ == "/"@,
        raw.process.environment@ == n.environment,
        raw.process.umask == 0o022,
        text::texts(raw.dependencies.requires@) == n.requires,
        text::texts(raw.dependencies.wants@) == n.wants,
        text::texts(raw.dependencies.after@) == n.after,
        text::texts(raw.dependencies.conflicts@) == n.conflicts,
        raw.supervision.restart == n.restart,
        raw.supervision.start_timeout_ms == 30_000,
        raw.supervision.stop_timeout_ms == 10_000,
        raw.supervision.restart_limit == 5,
        raw.supervision.restart_window_ms == 300_000,
        raw.supervision.restart_reset_ms == 300_000,
        raw.supervision.restart_backoff_max_ms == 30_000,
        text::optional_texts(raw.actions.stop) == n.stop,
        text::optional_texts(raw.actions.reload) == n.reload,
        raw.io.stdout is Console,
        raw.io.stderr is Console,
{
}

} // verus!
