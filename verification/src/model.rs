//! Service definitions: identifiers, the values read from a definition file, and
//! the checks that turn them into a validated definition.

use vstd::prelude::*;

use crate::environment::Environment;
use crate::text;

verus! {

broadcast use vstd::string::group_string_axioms;

/// The schema version of every native document.
pub const SCHEMA_VERSION: u32 = 1;

/// The largest file-mode creation mask.
pub const MAX_UMASK: u32 = 0o777;

/// The longest identifier, in characters.
pub const MAX_ID_LEN: usize = 128;

/// A letter or a digit of the ASCII range.
pub open spec fn is_alphanumeric(c: char) -> bool {
    ||| 'A' <= c <= 'Z'
    ||| 'a' <= c <= 'z'
    ||| '0' <= c <= '9'
}

/// A character that may follow the first one of an identifier.
pub open spec fn is_id_char(c: char) -> bool {
    is_alphanumeric(c) || c == '_' || c == '.' || c == '@' || c == '-'
}

/// The identifier grammar: a letter or digit, then up to 127 letters, digits
/// or characters out of `_.@-`.
pub open spec fn valid_identifier(s: Seq<char>) -> bool {
    &&& 1 <= s.len() <= MAX_ID_LEN
    &&& is_alphanumeric(s[0])
    &&& forall|i: int| 0 <= i < s.len() ==> is_id_char(#[trigger] s[i])
}

fn alphanumeric(c: char) -> (r: bool)
    ensures
        r == is_alphanumeric(c),
{
    ('A' <= c && c <= 'Z') || ('a' <= c && c <= 'z') || ('0' <= c && c <= '9')
}

fn id_char(c: char) -> (r: bool)
    ensures
        r == is_id_char(c),
{
    alphanumeric(c) || c == '_' || c == '.' || c == '@' || c == '-'
}

/// The name of a service or a group.
#[derive(Debug, PartialEq, Eq, PartialOrd, Ord, Hash)]
pub struct ServiceId {
    name: String,
}

impl View for ServiceId {
    type V = Seq<char>;

    closed spec fn view(&self) -> Seq<char> {
        self.name@
    }
}

impl ServiceId {
    #[verifier::type_invariant]
    spec fn well_formed(self) -> bool {
        valid_identifier(self.name@)
    }

    /// Creates a validated identifier.
    pub fn new(value: &str) -> (r: Result<ServiceId, ConfigError>)
        ensures
            match r {
                Ok(id) => valid_identifier(value@) && id@ == value@,
                Err(e) => !valid_identifier(value@) && e@ == ErrorModel::InvalidServiceId(value@),
            },
    {
        let chars = text::chars_of(value);
        let mut valid = 1 <= chars.len() && chars.len() <= MAX_ID_LEN && alphanumeric(chars[0]);
        let mut i: usize = 0;
        while valid && i < chars.len()
            invariant
                chars@ == value@,
                i <= chars.len(),
                valid ==> 1 <= chars.len() <= MAX_ID_LEN && is_alphanumeric(chars@[0]),
                valid ==> forall|k: int| 0 <= k < i ==> is_id_char(#[trigger] chars@[k]),
                !valid ==> !valid_identifier(value@),
            decreases chars.len() - i,
        {
            valid = id_char(chars[i]);
            i = i + 1;
        }
        if valid {
            Ok(ServiceId { name: text::owned(value) })
        } else {
            Err(ConfigError::InvalidServiceId(text::owned(value)))
        }
    }

    /// The text of the identifier, which always obeys the grammar.
    pub fn as_str(&self) -> (r: &str)
        ensures
            r@ == self@,
            valid_identifier(self@),
    {
        proof {
            use_type_invariant(self);
        }
        self.name.as_str()
    }

    /// The text of the identifier, as a string of its own.
    pub fn to_text(&self) -> (r: String)
        ensures
            r@ == self@,
    {
        self.name.clone()
    }

    /// Whether two identifiers are equal.
    pub fn same(&self, other: &ServiceId) -> (r: bool)
        ensures
            r == (self@ == other@),
    {
        self.name == other.name
    }

    /// Whether this identifier comes before the other.
    pub fn precedes(&self, other: &ServiceId) -> (r: bool)
        ensures
            r == text::text_less(self@, other@),
    {
        text::precedes(self.name.as_str(), other.name.as_str())
    }
}

impl Clone for ServiceId {
    fn clone(&self) -> (r: ServiceId)
        ensures
            r == *self,
            r@ == self@,
    {
        proof {
            use_type_invariant(self);
        }
        ServiceId { name: self.name.clone() }
    }
}

/// The names that a list of identifiers holds.
pub open spec fn id_texts(ids: Seq<ServiceId>) -> Seq<Seq<char>> {
    Seq::new(ids.len(), |i: int| ids[i]@)
}

/// What a configuration error says.
#[verifier::ext_equal]
pub enum ErrorModel {
    InvalidServiceId(Seq<char>),
    InvalidServicePath(Seq<char>),
    UnsupportedSchema { found: u32 },
    InvalidField { field: Seq<char>, reason: Seq<char> },
    DuplicateDefinition(Seq<char>),
    AmbiguousDefinition(Seq<char>),
    MissingDefaultGroup(Seq<char>),
    MissingDependency { owner: Seq<char>, relation: Seq<char>, target: Seq<char> },
    DependencyCycle(Seq<Seq<char>>),
    EnabledConflict { group: Seq<char>, left: Seq<char>, right: Seq<char> },
    Toml(Seq<char>),
}

/// Why a configuration is refused.
#[derive(Debug)]
pub enum ConfigError {
    InvalidServiceId(String),
    InvalidServicePath(String),
    UnsupportedSchema { found: u32 },
    InvalidField { field: &'static str, reason: String },
    DuplicateDefinition(ServiceId),
    AmbiguousDefinition(ServiceId),
    MissingDefaultGroup(ServiceId),
    MissingDependency { owner: ServiceId, relation: &'static str, target: ServiceId },
    DependencyCycle(Vec<ServiceId>),
    EnabledConflict { group: ServiceId, left: ServiceId, right: ServiceId },
    Toml(String),
}

impl View for ConfigError {
    type V = ErrorModel;

    open spec fn view(&self) -> ErrorModel {
        match *self {
            ConfigError::InvalidServiceId(s) => ErrorModel::InvalidServiceId(s@),
            ConfigError::InvalidServicePath(s) => ErrorModel::InvalidServicePath(s@),
            ConfigError::UnsupportedSchema { found } => ErrorModel::UnsupportedSchema { found },
            ConfigError::InvalidField { field, reason } => ErrorModel::InvalidField {
                field: field@,
                reason: reason@,
            },
            ConfigError::DuplicateDefinition(id) => ErrorModel::DuplicateDefinition(id@),
            ConfigError::AmbiguousDefinition(id) => ErrorModel::AmbiguousDefinition(id@),
            ConfigError::MissingDefaultGroup(id) => ErrorModel::MissingDefaultGroup(id@),
            ConfigError::MissingDependency { owner, relation, target } =>
                ErrorModel::MissingDependency {
                owner: owner@,
                relation: relation@,
                target: target@,
            },
            ConfigError::DependencyCycle(ids) => ErrorModel::DependencyCycle(id_texts(ids@)),
            ConfigError::EnabledConflict { group, left, right } => ErrorModel::EnabledConflict {
                group: group@,
                left: left@,
                right: right@,
            },
            ConfigError::Toml(s) => ErrorModel::Toml(s@),
        }
    }
}

/// Which manager a definition belongs to.
#[derive(Clone, Copy, Debug, PartialEq, Eq, Structural)]
pub enum ManagerScope {
    System,
    User,
}

/// How long a process is meant to live.
#[derive(Clone, Copy, Debug, PartialEq, Eq, Structural)]
pub enum ProcessType {
    Simple,
    Oneshot,
}

/// What makes a started process ready.
#[derive(Clone, Copy, Debug, PartialEq, Eq, Structural)]
pub enum Readiness {
    Exec,
    Notify,
    Completion,
}

/// Readiness as a definition file states it.
#[derive(Clone, Copy, Debug, PartialEq, Eq, Structural)]
pub enum RawReadiness {
    Exec,
    Notify,
}

/// When an ended process is started again.
#[derive(Clone, Copy, Debug, PartialEq, Eq, Structural)]
pub enum RestartPolicy {
    No,
    OnFailure,
    Always,
}

/// An account or group, by name or by number.
#[derive(Debug, PartialEq, Eq, Hash)]
pub enum IdentitySpec {
    Name(String),
    Id(u32),
}

/// What an [`IdentitySpec`] names.
#[verifier::ext_equal]
pub enum IdentityModel {
    Name(Seq<char>),
    Id(u32),
}

impl View for IdentitySpec {
    type V = IdentityModel;

    open spec fn view(&self) -> IdentityModel {
        match *self {
            IdentitySpec::Name(name) => IdentityModel::Name(name@),
            IdentitySpec::Id(id) => IdentityModel::Id(id),
        }
    }
}

/// What a list of identities names.
pub open spec fn identities(list: Seq<IdentitySpec>) -> Seq<IdentityModel> {
    Seq::new(list.len(), |i: int| list[i]@)
}

impl Clone for IdentitySpec {
    fn clone(&self) -> (r: IdentitySpec)
        ensures
            r == *self,
    {
        match self {
            IdentitySpec::Name(name) => IdentitySpec::Name(name.clone()),
            IdentitySpec::Id(id) => IdentitySpec::Id(*id),
        }
    }
}

impl IdentitySpec {
    /// Whether both name the same account or group in the same way.
    pub fn same(&self, other: &IdentitySpec) -> (r: bool)
        ensures
            r == (self@ == other@),
    {
        match (self, other) {
            (IdentitySpec::Name(a), IdentitySpec::Name(b)) => *a == *b,
            (IdentitySpec::Id(a), IdentitySpec::Id(b)) => *a == *b,
            _ => false,
        }
    }
}

/// Which account or group a process runs with.
#[derive(Debug, PartialEq, Eq)]
pub enum IdentitySelection {
    Manager,
    UserPrimary,
    Explicit(IdentitySpec),
}

/// What an [`IdentitySelection`] selects.
#[verifier::ext_equal]
pub enum SelectionModel {
    Manager,
    UserPrimary,
    Explicit(IdentityModel),
}

impl View for IdentitySelection {
    type V = SelectionModel;

    open spec fn view(&self) -> SelectionModel {
        match *self {
            IdentitySelection::Manager => SelectionModel::Manager,
            IdentitySelection::UserPrimary => SelectionModel::UserPrimary,
            IdentitySelection::Explicit(spec) => SelectionModel::Explicit(spec@),
        }
    }
}

impl IdentitySelection {
    /// Whether both select the same account or group in the same way.
    pub fn same(&self, other: &IdentitySelection) -> (r: bool)
        ensures
            r == (self@ == other@),
    {
        match (self, other) {
            (IdentitySelection::Manager, IdentitySelection::Manager) => true,
            (IdentitySelection::UserPrimary, IdentitySelection::UserPrimary) => true,
            (IdentitySelection::Explicit(a), IdentitySelection::Explicit(b)) => a.same(b),
            _ => false,
        }
    }
}

/// The account that a process runs with, in numbers.
#[derive(Clone, Debug, PartialEq, Eq)]
pub struct ResolvedIdentity {
    pub uid: u32,
    pub gid: u32,
    pub supplementary_groups: Vec<u32>,
}

/// Where a process writes to.
#[derive(Debug, PartialEq, Eq)]
pub enum OutputTarget {
    Console,
    Null,
    Append(String),
    Socket(String),
}

/// Where an [`OutputTarget`] leads.
#[verifier::ext_equal]
pub enum OutputModel {
    Console,
    Null,
    Append(Seq<char>),
    Socket(Seq<char>),
}

impl View for OutputTarget {
    type V = OutputModel;

    open spec fn view(&self) -> OutputModel {
        match *self {
            OutputTarget::Console => OutputModel::Console,
            OutputTarget::Null => OutputModel::Null,
            OutputTarget::Append(path) => OutputModel::Append(path@),
            OutputTarget::Socket(path) => OutputModel::Socket(path@),
        }
    }
}

/// The components of a path among the first `n` parts between slashes: what is neither
/// empty nor `.`.
pub open spec fn components(parts: Seq<Seq<char>>, n: nat) -> Seq<Seq<char>>
    decreases n,
{
    if n == 0 {
        Seq::empty()
    } else {
        let before = components(parts, (n - 1) as nat);
        if parts[n - 1].len() == 0 || parts[n - 1] == "."@ {
            before
        } else {
            before.push(parts[n - 1])
        }
    }
}

/// What a path begins with: the root, the present directory, or neither.
pub open spec fn path_start(path: Seq<char>) -> Seq<char> {
    if path.len() > 0 && path[0] == '/' {
        "/"@
    } else if text::split(path, '/')[0] == "."@ {
        "./"@
    } else {
        Seq::empty()
    }
}

/// A path in its plainest form: its components with one slash between each two of them.
/// Paths with the same components have the same one.
pub open spec fn plain_path(path: Seq<char>) -> Seq<char> {
    let parts = text::split(path, '/');
    path_start(path) + text::join(components(parts, parts.len()), "/"@)
}

/// The plainest form of a path.
pub fn plain_path_of(path: &str) -> (r: String)
    ensures
        r@ == plain_path(path@),
{
    let parts = text::split_string(path, '/');
    let ghost all = text::texts(parts@);
    let mut kept: Vec<String> = Vec::new();
    let mut k: usize = 0;
    proof {
        text::split_law(path@, '/');
        assert(text::texts(kept@) =~= components(all, 0));
    }
    while k < parts.len()
        invariant
            all == text::texts(parts@),
            k <= parts@.len(),
            text::texts(kept@) == components(all, k as nat),
        decreases parts@.len() - k,
    {
        let ghost before = kept@;
        proof {
            reveal_strlit("");
            assert(all[k as int] == parts@[k as int]@);
            if all[k as int].len() == 0 {
                assert(all[k as int] =~= ""@);
            }
        }
        if !text::same_text(parts[k].as_str(), "") && !text::same_text(parts[k].as_str(), ".") {
            kept.push(text::owned(parts[k].as_str()));
            proof {
                assert(text::texts(kept@) =~= text::texts(before).push(all[k as int]));
            }
        }
        k = k + 1;
    }
    let rest = text::join_strings(&kept, "/");
    let chars = text::chars_of(path);
    proof {
        assert(all[0] == parts@[0]@);
    }
    if chars.len() > 0 && chars[0] == '/' {
        text::concat2("/", rest.as_str())
    } else if text::same_text(parts[0].as_str(), ".") {
        text::concat2("./", rest.as_str())
    } else {
        proof {
            assert(Seq::<char>::empty() + rest@ =~= rest@);
        }
        rest
    }
}

/// Whether two paths have the same components.
pub fn same_path(a: &str, b: &str) -> (r: bool)
    ensures
        r == (plain_path(a@) == plain_path(b@)),
{
    let left = plain_path_of(a);
    let right = plain_path_of(b);
    text::same_text(left.as_str(), right.as_str())
}

impl OutputModel {
    /// The target with its path in the plainest form.
    pub open spec fn plain(self) -> OutputModel {
        match self {
            OutputModel::Append(path) => OutputModel::Append(plain_path(path)),
            OutputModel::Socket(path) => OutputModel::Socket(plain_path(path)),
            _ => self,
        }
    }
}

impl OutputTarget {
    /// Whether both lead to the same place.
    pub fn same(&self, other: &OutputTarget) -> (r: bool)
        ensures
            r == (self@.plain() == other@.plain()),
    {
        match (self, other) {
            (OutputTarget::Console, OutputTarget::Console) => true,
            (OutputTarget::Null, OutputTarget::Null) => true,
            (OutputTarget::Append(a), OutputTarget::Append(b)) => same_path(
                a.as_str(),
                b.as_str(),
            ),
            (OutputTarget::Socket(a), OutputTarget::Socket(b)) => same_path(
                a.as_str(),
                b.as_str(),
            ),
            _ => false,
        }
    }
}

/// Output as a definition file states it.
#[derive(Debug)]
pub enum RawOutput {
    Console,
    Null,
    Append(String),
    Socket(String),
}

/// The process table of a definition file.
#[derive(Debug)]
pub struct RawProcess {
    pub command: Vec<String>,
    pub kind: ProcessType,
    pub readiness: RawReadiness,
    pub user: Option<IdentitySpec>,
    pub group: Option<IdentitySpec>,
    pub supplementary_groups: Vec<IdentitySpec>,
    pub working_directory: String,
    pub environment: Environment,
    pub umask: u32,
}

/// The dependency lists of a definition file or of a group.
#[derive(Debug)]
pub struct RawDependencies {
    pub requires: Vec<String>,
    pub wants: Vec<String>,
    pub after: Vec<String>,
    pub conflicts: Vec<String>,
}

/// The supervision table of a definition file.
#[derive(Clone, Copy, Debug, PartialEq, Eq, Structural)]
pub struct RawSupervision {
    pub restart: RestartPolicy,
    pub start_timeout_ms: u64,
    pub stop_timeout_ms: u64,
    pub restart_limit: u32,
    pub restart_window_ms: u64,
    pub restart_reset_ms: u64,
    pub restart_backoff_max_ms: u64,
}

/// The helper commands of a definition file.
#[derive(Debug)]
pub struct RawActions {
    pub stop: Option<Vec<String>>,
    pub reload: Option<Vec<String>>,
}

/// The output table of a definition file.
#[derive(Debug)]
pub struct RawIo {
    pub stdout: RawOutput,
    pub stderr: RawOutput,
}

/// The values of one definition file, before any check.
#[derive(Debug)]
pub struct RawServiceDefinition {
    pub schema_version: u32,
    pub description: String,
    pub process: RawProcess,
    pub dependencies: RawDependencies,
    pub supervision: RawSupervision,
    pub actions: RawActions,
    pub io: RawIo,
}

impl RawProcess {
    /// The process table in which only the command is given.
    pub fn new(command: Vec<String>) -> (r: RawProcess)
        ensures
            r.command == command,
            r.kind == ProcessType::Simple,
            r.readiness == RawReadiness::Exec,
            r.user is None,
            r.group is None,
            r.supplementary_groups@.len() == 0,
            r.working_directory@ == "/"@,
            r.environment@.len() == 0,
            r.environment.well_formed(),
            r.umask == 0o022,
    {
        RawProcess {
            command,
            kind: ProcessType::Simple,
            readiness: RawReadiness::Exec,
            user: None,
            group: None,
            supplementary_groups: Vec::new(),
            working_directory: text::owned("/"),
            environment: Environment::new(),
            umask: 0o022,
        }
    }
}

impl Default for RawDependencies {
    fn default() -> (r: RawDependencies)
        ensures
            r.requires@.len() == 0,
            r.wants@.len() == 0,
            r.after@.len() == 0,
            r.conflicts@.len() == 0,
    {
        RawDependencies {
            requires: Vec::new(),
            wants: Vec::new(),
            after: Vec::new(),
            conflicts: Vec::new(),
        }
    }
}

impl Default for RawSupervision {
    fn default() -> (r: RawSupervision)
        ensures
            r == (RawSupervision {
                restart: RestartPolicy::No,
                start_timeout_ms: 30_000,
                stop_timeout_ms: 10_000,
                restart_limit: 5,
                restart_window_ms: 300_000,
                restart_reset_ms: 300_000,
                restart_backoff_max_ms: 30_000,
            }),
    {
        RawSupervision {
            restart: RestartPolicy::No,
            start_timeout_ms: 30_000,
            stop_timeout_ms: 10_000,
            restart_limit: 5,
            restart_window_ms: 300_000,
            restart_reset_ms: 300_000,
            restart_backoff_max_ms: 30_000,
        }
    }
}

impl Default for RawActions {
    fn default() -> (r: RawActions)
        ensures
            r.stop is None,
            r.reload is None,
    {
        RawActions { stop: None, reload: None }
    }
}

impl Default for RawOutput {
    fn default() -> (r: RawOutput)
        ensures
            r is Console,
    {
        RawOutput::Console
    }
}

impl Default for RawIo {
    fn default() -> (r: RawIo)
        ensures
            r.stdout is Console,
            r.stderr is Console,
    {
        RawIo { stdout: RawOutput::Console, stderr: RawOutput::Console }
    }
}

impl RawServiceDefinition {
    /// The definition file of the current schema in which only the process table
    /// is given.
    pub fn new(process: RawProcess) -> (r: RawServiceDefinition)
        ensures
            r.schema_version == SCHEMA_VERSION,
            r.description@ == Seq::<char>::empty(),
            r.process == process,
            r.dependencies.requires@.len() == 0,
            r.dependencies.wants@.len() == 0,
            r.dependencies.after@.len() == 0,
            r.dependencies.conflicts@.len() == 0,
            r.supervision.restart == RestartPolicy::No,
            r.supervision.start_timeout_ms == 30_000,
            r.supervision.stop_timeout_ms == 10_000,
            r.supervision.restart_limit == 5,
            r.supervision.restart_window_ms == 300_000,
            r.supervision.restart_reset_ms == 300_000,
            r.supervision.restart_backoff_max_ms == 30_000,
            r.actions.stop is None,
            r.actions.reload is None,
            r.io.stdout is Console,
            r.io.stderr is Console,
    {
        RawServiceDefinition {
            schema_version: SCHEMA_VERSION,
            description: String::new(),
            process,
            dependencies: RawDependencies::default(),
            supervision: RawSupervision::default(),
            actions: RawActions::default(),
            io: RawIo::default(),
        }
    }
}

/// How a process is run.
#[derive(Debug, PartialEq, Eq)]
pub struct ProcessDefinition {
    pub command: Vec<String>,
    pub kind: ProcessType,
    pub readiness: Readiness,
    pub user: IdentitySelection,
    pub group: IdentitySelection,
    pub supplementary_groups: Vec<IdentitySpec>,
    pub working_directory: String,
    pub environment: Environment,
    pub umask: u32,
}

/// What a [`ProcessDefinition`] holds.
#[verifier::ext_equal]
pub struct ProcessModel {
    pub command: Seq<Seq<char>>,
    pub kind: ProcessType,
    pub readiness: Readiness,
    pub user: SelectionModel,
    pub group: SelectionModel,
    pub supplementary_groups: Seq<IdentityModel>,
    pub working_directory: Seq<char>,
    pub environment: Seq<(Seq<char>, Seq<char>)>,
    pub umask: u32,
}

impl View for ProcessDefinition {
    type V = ProcessModel;

    open spec fn view(&self) -> ProcessModel {
        ProcessModel {
            command: text::texts(self.command@),
            kind: self.kind,
            readiness: self.readiness,
            user: self.user@,
            group: self.group@,
            supplementary_groups: identities(self.supplementary_groups@),
            working_directory: self.working_directory@,
            environment: self.environment@,
            umask: self.umask,
        }
    }
}

/// The nodes that a service or a group depends on.
#[derive(Debug, PartialEq, Eq)]
pub struct Dependencies {
    pub requires: Vec<ServiceId>,
    pub wants: Vec<ServiceId>,
    pub after: Vec<ServiceId>,
    pub conflicts: Vec<ServiceId>,
}

/// What a [`Dependencies`] holds.
#[verifier::ext_equal]
pub struct DependenciesModel {
    pub requires: Seq<Seq<char>>,
    pub wants: Seq<Seq<char>>,
    pub after: Seq<Seq<char>>,
    pub conflicts: Seq<Seq<char>>,
}

impl View for Dependencies {
    type V = DependenciesModel;

    open spec fn view(&self) -> DependenciesModel {
        DependenciesModel {
            requires: id_texts(self.requires@),
            wants: id_texts(self.wants@),
            after: id_texts(self.after@),
            conflicts: id_texts(self.conflicts@),
        }
    }
}

/// When a process is started again, and how long a transition may take.
#[derive(Clone, Copy, Debug, PartialEq, Eq, Structural)]
pub struct Supervision {
    pub restart: RestartPolicy,
    pub start_timeout_ms: u64,
    pub stop_timeout_ms: u64,
    pub restart_limit: u32,
    pub restart_window_ms: u64,
    pub restart_reset_ms: u64,
    pub restart_backoff_max_ms: u64,
}

/// Helper commands.
#[derive(Debug, PartialEq, Eq)]
pub struct Actions {
    pub stop: Option<Vec<String>>,
    pub reload: Option<Vec<String>>,
}

/// What an [`Actions`] holds.
#[verifier::ext_equal]
pub struct ActionsModel {
    pub stop: Option<Seq<Seq<char>>>,
    pub reload: Option<Seq<Seq<char>>>,
}

impl View for Actions {
    type V = ActionsModel;

    open spec fn view(&self) -> ActionsModel {
        ActionsModel {
            stop: text::optional_texts(self.stop),
            reload: text::optional_texts(self.reload),
        }
    }
}

/// Where standard output and standard error lead.
#[derive(Debug, PartialEq, Eq)]
pub struct IoDefinition {
    pub stdout: OutputTarget,
    pub stderr: OutputTarget,
}

/// What an [`IoDefinition`] holds.
#[verifier::ext_equal]
pub struct IoModel {
    pub stdout: OutputModel,
    pub stderr: OutputModel,
}

impl View for IoDefinition {
    type V = IoModel;

    open spec fn view(&self) -> IoModel {
        IoModel { stdout: self.stdout@, stderr: self.stderr@ }
    }
}

/// One validated service.
#[derive(Debug, PartialEq, Eq)]
pub struct ServiceDefinition {
    pub id: ServiceId,
    pub description: String,
    pub process: ProcessDefinition,
    pub dependencies: Dependencies,
    pub supervision: Supervision,
    pub actions: Actions,
    pub io: IoDefinition,
}

/// What a [`ServiceDefinition`] holds.
#[verifier::ext_equal]
pub struct ServiceModel {
    pub id: Seq<char>,
    pub description: Seq<char>,
    pub process: ProcessModel,
    pub dependencies: DependenciesModel,
    pub supervision: Supervision,
    pub actions: ActionsModel,
    pub io: IoModel,
}

impl View for ServiceDefinition {
    type V = ServiceModel;

    open spec fn view(&self) -> ServiceModel {
        ServiceModel {
            id: self.id@,
            description: self.description@,
            process: self.process@,
            dependencies: self.dependencies@,
            supervision: self.supervision,
            actions: self.actions@,
            io: self.io@,
        }
    }
}

/// Whether a path is absolute.
pub open spec fn is_absolute(path: Seq<char>) -> bool {
    text::begins_with(path, '/')
}

/// A refused field.
pub open spec fn field_error(field: Seq<char>, reason: Seq<char>) -> ErrorModel {
    ErrorModel::InvalidField { field, reason }
}

/// A path must be absolute.
pub open spec fn absolute_error(field: Seq<char>, path: Seq<char>) -> Option<ErrorModel> {
    if is_absolute(path) {
        None
    } else {
        Some(field_error(field, "path must be absolute: "@ + path))
    }
}

/// A command is an executable with an absolute path and arguments without NUL.
pub open spec fn command_error(field: Seq<char>, command: Seq<Seq<char>>) -> Option<ErrorModel> {
    if command.len() == 0 {
        Some(field_error(field, "command must not be empty"@))
    } else if !is_absolute(command[0]) {
        absolute_error(field, command[0])
    } else if exists|i: int| 0 <= i < command.len() && (#[trigger] command[i]).contains('\0') {
        Some(field_error(field, "arguments must not contain NUL"@))
    } else {
        None
    }
}

/// An account name is not empty and has neither a colon nor a NUL.
pub open spec fn identity_error(identity: IdentityModel) -> Option<ErrorModel> {
    match identity {
        IdentityModel::Name(name) => if name.len() == 0 || name.contains(':') || name.contains(
            '\0',
        ) {
            Some(
                field_error(
                    "process identity"@,
                    "invalid account name "@ + text::debug_quoted(name),
                ),
            )
        } else {
            None
        },
        IdentityModel::Id(_) => None,
    }
}

/// The error of the first identity among the first `n` that has one.
pub open spec fn identities_error(list: Seq<IdentityModel>, n: nat) -> Option<ErrorModel>
    decreases n,
{
    if n == 0 {
        None
    } else {
        match identities_error(list, (n - 1) as nat) {
            Some(e) => Some(e),
            None => identity_error(list[n - 1]),
        }
    }
}

/// An optional identity as a list.
pub open spec fn optional_identity(value: Option<IdentitySpec>) -> Seq<IdentityModel> {
    match value {
        Some(identity) => seq![identity@],
        None => Seq::empty(),
    }
}

/// Every identity that a process table names: user, group, further groups.
pub open spec fn named_identities(raw: RawProcess) -> Seq<IdentityModel> {
    optional_identity(raw.user) + optional_identity(raw.group) + identities(
        raw.supplementary_groups@,
    )
}

/// Whether some element occurs twice.
pub open spec fn has_duplicate<A>(list: Seq<A>) -> bool {
    exists|i: int, j: int| 0 <= i < j < list.len() && list[i] == list[j]
}

/// A variable's name is not empty and has neither an equals sign nor a NUL; its
/// value has no NUL.
pub open spec fn entry_error(entry: (Seq<char>, Seq<char>)) -> Option<ErrorModel> {
    if entry.0.len() == 0 || entry.0.contains('=') || entry.0.contains('\0') || entry.1.contains(
        '\0',
    ) {
        Some(
            field_error(
                "process.environment"@,
                "invalid environment entry "@ + text::debug_quoted(entry.0),
            ),
        )
    } else {
        None
    }
}

/// The error of the first variable among the first `n` that has one.
pub open spec fn environment_error(
    entries: Seq<(Seq<char>, Seq<char>)>,
    n: nat,
) -> Option<ErrorModel>
    decreases n,
{
    if n == 0 {
        None
    } else {
        match environment_error(entries, (n - 1) as nat) {
            Some(e) => Some(e),
            None => entry_error(entries[n - 1]),
        }
    }
}

/// The readiness of a process; a oneshot process is ready when it has completed
/// and cannot announce readiness itself.
pub open spec fn readiness_of(kind: ProcessType, raw: RawReadiness) -> Option<Readiness> {
    match (kind, raw) {
        (ProcessType::Oneshot, RawReadiness::Notify) => None,
        (ProcessType::Oneshot, RawReadiness::Exec) => Some(Readiness::Completion),
        (ProcessType::Simple, RawReadiness::Exec) => Some(Readiness::Exec),
        (ProcessType::Simple, RawReadiness::Notify) => Some(Readiness::Notify),
    }
}

/// The account named root.
pub open spec fn root_selection() -> SelectionModel {
    SelectionModel::Explicit(IdentityModel::Name("root"@))
}

/// The user of a process: the one that is named, else root for a system service
/// and the manager's own for a user service.
pub open spec fn user_selection(raw: RawProcess, scope: ManagerScope) -> SelectionModel {
    match raw.user {
        Some(user) => SelectionModel::Explicit(user@),
        None => match scope {
            ManagerScope::System => root_selection(),
            ManagerScope::User => SelectionModel::Manager,
        },
    }
}

/// The group of a process: the one that is named, else the manager's own for a
/// user service, the primary group of a named user, or root.
pub open spec fn group_selection(raw: RawProcess, scope: ManagerScope) -> SelectionModel {
    match raw.group {
        Some(group) => SelectionModel::Explicit(group@),
        None => match scope {
            ManagerScope::User => SelectionModel::Manager,
            ManagerScope::System => if raw.user is Some {
                SelectionModel::UserPrimary
            } else {
                root_selection()
            },
        },
    }
}

/// The process that a process table describes, or why it is refused.
pub open spec fn process_result(raw: RawProcess, scope: ManagerScope) -> Result<
    ProcessModel,
    ErrorModel,
> {
    let command = text::texts(raw.command@);
    let named = named_identities(raw);
    if command_error("process.command"@, command) is Some {
        Err(command_error("process.command"@, command)->0)
    } else if !is_absolute(raw.working_directory@) {
        Err(absolute_error("process.working_directory"@, raw.working_directory@)->0)
    } else if raw.umask > MAX_UMASK {
        Err(field_error("process.umask"@, "must be between 0o000 and 0o777"@))
    } else if identities_error(named, named.len()) is Some {
        Err(identities_error(named, named.len())->0)
    } else if has_duplicate(identities(raw.supplementary_groups@)) {
        Err(field_error("process.supplementary_groups"@, "duplicate group"@))
    } else if environment_error(raw.environment@, raw.environment@.len()) is Some {
        Err(environment_error(raw.environment@, raw.environment@.len())->0)
    } else if readiness_of(raw.kind, raw.readiness) is None {
        Err(
            field_error(
                "process.readiness"@,
                "oneshot readiness is successful process completion"@,
            ),
        )
    } else {
        Ok(
            ProcessModel {
                command,
                kind: raw.kind,
                readiness: readiness_of(raw.kind, raw.readiness)->0,
                user: user_selection(raw, scope),
                group: group_selection(raw, scope),
                supplementary_groups: identities(raw.supplementary_groups@),
                working_directory: raw.working_directory@,
                environment: raw.environment@,
                umask: raw.umask,
            },
        )
    }
}

/// What a result that may be a configuration error holds.
pub open spec fn outcome<T: View>(r: Result<T, ConfigError>) -> Result<T::V, ErrorModel> {
    match r {
        Ok(value) => Ok(value@),
        Err(e) => Err(e@),
    }
}

/// What an optional configuration error says.
pub open spec fn refusal(r: Result<(), ConfigError>) -> Option<ErrorModel> {
    match r {
        Ok(_) => None,
        Err(e) => Some(e@),
    }
}

/// Requires an absolute path.
pub fn require_absolute(field: &'static str, path: &str) -> (r: Result<(), ConfigError>)
    ensures
        refusal(r) == absolute_error(field@, path@),
{
    if text::begins_with_char(path, '/') {
        Ok(())
    } else {
        Err(
            ConfigError::InvalidField {
                field,
                reason: text::concat2("path must be absolute: ", path),
            },
        )
    }
}

/// Requires a command with an absolute executable and without NUL.
pub fn validate_command(field: &'static str, command: &Vec<String>) -> (r: Result<
    (),
    ConfigError,
>)
    ensures
        refusal(r) == command_error(field@, text::texts(command@)),
{
    if command.len() == 0 {
        return Err(
            ConfigError::InvalidField { field, reason: text::owned("command must not be empty") },
        );
    }
    proof {
        assert(text::texts(command@)[0] == command@[0]@);
    }
    if !text::begins_with_char(command[0].as_str(), '/') {
        return require_absolute(field, command[0].as_str());
    }
    let mut i: usize = 0;
    while i < command.len()
        invariant
            0 < command.len(),
            i <= command.len(),
            is_absolute(text::texts(command@)[0]),
            forall|k: int| 0 <= k < i ==> !(#[trigger] text::texts(command@)[k]).contains('\0'),
        decreases command.len() - i,
    {
        proof {
            assert(text::texts(command@)[i as int] == command@[i as int]@);
        }
        if text::contains_char(command[i].as_str(), '\0') {
            return Err(
                ConfigError::InvalidField {
                    field,
                    reason: text::owned("arguments must not contain NUL"),
                },
            );
        }
        i = i + 1;
    }
    Ok(())
}

fn validate_identity(identity: &IdentitySpec) -> (r: Result<(), ConfigError>)
    ensures
        refusal(r) == identity_error(identity@),
{
    if let IdentitySpec::Name(name) = identity {
        if name.as_str().is_empty() || text::contains_char(name.as_str(), ':')
            || text::contains_char(name.as_str(), '\0') {
            let quoted = text::debug_text(name.as_str());
            return Err(
                ConfigError::InvalidField {
                    field: "process identity",
                    reason: text::concat2("invalid account name ", quoted.as_str()),
                },
            );
        }
    }
    Ok(())
}

fn validate_identities(raw: &RawProcess) -> (r: Result<(), ConfigError>)
    ensures
        refusal(r) == identities_error(named_identities(*raw), named_identities(*raw).len()),
{
    let ghost all = named_identities(*raw);
    let ghost users = optional_identity(raw.user);
    let ghost pair = users + optional_identity(raw.group);
    proof {
        reveal_with_fuel(identities_error, 3);
    }
    if let Some(user) = &raw.user {
        proof {
            assert(all[0] == user@);
        }
        let checked = validate_identity(user);
        if checked.is_err() {
            proof {
                identities_error_tail(all, 1);
            }
            return checked;
        }
    }
    assert(identities_error(all, users.len()) is None);
    if let Some(group) = &raw.group {
        proof {
            assert(all[users.len() as int] == group@);
        }
        let checked = validate_identity(group);
        if checked.is_err() {
            proof {
                identities_error_tail(all, users.len() + 1);
            }
            return checked;
        }
    }
    assert(identities_error(all, pair.len()) is None);
    let mut i: usize = 0;
    while i < raw.supplementary_groups.len()
        invariant
            all == named_identities(*raw),
            pair == optional_identity(raw.user) + optional_identity(raw.group),
            i <= raw.supplementary_groups.len(),
            identities_error(all, pair.len() + i as nat) is None,
        decreases raw.supplementary_groups.len() - i,
    {
        proof {
            assert(all[pair.len() + i] == raw.supplementary_groups@[i as int]@);
        }
        let checked = validate_identity(&raw.supplementary_groups[i]);
        if checked.is_err() {
            proof {
                identities_error_tail(all, pair.len() + i as nat + 1);
            }
            return checked;
        }
        i = i + 1;
    }
    Ok(())
}

proof fn identities_error_tail(list: Seq<IdentityModel>, n: nat)
    requires
        n <= list.len(),
        identities_error(list, n) is Some,
    ensures
        identities_error(list, list.len()) == identities_error(list, n),
    decreases list.len() - n,
{
    if n < list.len() {
        identities_error_tail(list, n + 1);
    }
}

fn has_duplicate_identity(list: &Vec<IdentitySpec>) -> (r: bool)
    ensures
        r == has_duplicate(identities(list@)),
{
    let mut j: usize = 0;
    while j < list.len()
        invariant
            j <= list.len(),
            forall|a: int, b: int|
                0 <= a < b < j ==> identities(list@)[a] != identities(list@)[b],
        decreases list.len() - j,
    {
        let mut i: usize = 0;
        while i < j
            invariant
                i <= j < list.len(),
                forall|a: int| 0 <= a < i ==> identities(list@)[a] != identities(list@)[j as int],
            decreases j - i,
        {
            proof {
                assert(identities(list@)[i as int] == list@[i as int]@);
                assert(identities(list@)[j as int] == list@[j as int]@);
            }
            if list[i].same(&list[j]) {
                return true;
            }
            i = i + 1;
        }
        j = j + 1;
    }
    false
}

fn validate_environment(environment: &Environment) -> (r: Result<(), ConfigError>)
    ensures
        refusal(r) == environment_error(environment@, environment@.len()),
{
    let mut i: usize = 0;
    while i < environment.len()
        invariant
            i <= environment@.len(),
            environment_error(environment@, i as nat) is None,
        decreases environment@.len() - i,
    {
        let key = environment.key(i);
        let value = environment.value(i);
        if key.is_empty() || text::contains_char(key, '=') || text::contains_char(key, '\0')
            || text::contains_char(value, '\0') {
            let quoted = text::debug_text(key);
            proof {
                environment_error_tail(environment@, i as nat + 1);
            }
            return Err(
                ConfigError::InvalidField {
                    field: "process.environment",
                    reason: text::concat2("invalid environment entry ", quoted.as_str()),
                },
            );
        }
        i = i + 1;
    }
    Ok(())
}

proof fn environment_error_tail(entries: Seq<(Seq<char>, Seq<char>)>, n: nat)
    requires
        n <= entries.len(),
        environment_error(entries, n) is Some,
    ensures
        environment_error(entries, entries.len()) == environment_error(entries, n),
    decreases entries.len() - n,
{
    if n < entries.len() {
        environment_error_tail(entries, n + 1);
    }
}

impl ProcessDefinition {
    /// Checks a process table and fills in what it leaves out.
    pub fn from_raw(raw: RawProcess, scope: ManagerScope) -> (r: Result<
        ProcessDefinition,
        ConfigError,
    >)
        ensures
            outcome(r) == process_result(raw, scope),
    {
        if let Err(e) = validate_command("process.command", &raw.command) {
            return Err(e);
        }
        if let Err(e) = require_absolute(
            "process.working_directory",
            raw.working_directory.as_str(),
        ) {
            return Err(e);
        }
        if raw.umask > MAX_UMASK {
            return Err(
                ConfigError::InvalidField {
                    field: "process.umask",
                    reason: text::owned("must be between 0o000 and 0o777"),
                },
            );
        }
        if let Err(e) = validate_identities(&raw) {
            return Err(e);
        }
        if has_duplicate_identity(&raw.supplementary_groups) {
            return Err(
                ConfigError::InvalidField {
                    field: "process.supplementary_groups",
                    reason: text::owned("duplicate group"),
                },
            );
        }
        if let Err(e) = validate_environment(&raw.environment) {
            return Err(e);
        }
        let readiness = match (raw.kind, raw.readiness) {
            (ProcessType::Oneshot, RawReadiness::Notify) => {
                return Err(
                    ConfigError::InvalidField {
                        field: "process.readiness",
                        reason: text::owned("oneshot readiness is successful process completion"),
                    },
                );
            },
            (ProcessType::Oneshot, RawReadiness::Exec) => Readiness::Completion,
            (ProcessType::Simple, RawReadiness::Exec) => Readiness::Exec,
            (ProcessType::Simple, RawReadiness::Notify) => Readiness::Notify,
        };
        let user_was_explicit = raw.user.is_some();
        let user = match raw.user {
            Some(user) => IdentitySelection::Explicit(user),
            None => match scope {
                ManagerScope::System => IdentitySelection::Explicit(
                    IdentitySpec::Name(text::owned("root")),
                ),
                ManagerScope::User => IdentitySelection::Manager,
            },
        };
        let group = match raw.group {
            Some(group) => IdentitySelection::Explicit(group),
            None => match scope {
                ManagerScope::User => IdentitySelection::Manager,
                ManagerScope::System => if user_was_explicit {
                    IdentitySelection::UserPrimary
                } else {
                    IdentitySelection::Explicit(IdentitySpec::Name(text::owned("root")))
                },
            },
        };
        Ok(
            ProcessDefinition {
                command: raw.command,
                kind: raw.kind,
                readiness,
                user,
                group,
                supplementary_groups: raw.supplementary_groups,
                working_directory: raw.working_directory,
                environment: raw.environment,
                umask: raw.umask,
            },
        )
    }
}

/// Why the entry at position `i` of a dependency list is refused: it is no
/// identifier, names its owner, or repeats an earlier entry.
pub open spec fn dependency_error(
    field: Seq<char>,
    values: Seq<Seq<char>>,
    owner: Seq<char>,
    i: int,
) -> Option<ErrorModel> {
    if !valid_identifier(values[i]) {
        Some(ErrorModel::InvalidServiceId(values[i]))
    } else if values[i] == owner {
        Some(field_error(field, "a service cannot depend on itself"@))
    } else if values.take(i).contains(values[i]) {
        Some(field_error(field, "duplicate service "@ + values[i]))
    } else {
        None
    }
}

/// The error of the first entry among the first `n` that has one.
pub open spec fn dependency_list_error(
    field: Seq<char>,
    values: Seq<Seq<char>>,
    owner: Seq<char>,
    n: nat,
) -> Option<ErrorModel>
    decreases n,
{
    if n == 0 {
        None
    } else {
        match dependency_list_error(field, values, owner, (n - 1) as nat) {
            Some(e) => Some(e),
            None => dependency_error(field, values, owner, n - 1),
        }
    }
}

/// The identifiers of a dependency list, or why it is refused.
pub open spec fn dependency_list(
    field: Seq<char>,
    values: Seq<Seq<char>>,
    owner: Seq<char>,
) -> Result<Seq<Seq<char>>, ErrorModel> {
    match dependency_list_error(field, values, owner, values.len()) {
        Some(e) => Err(e),
        None => Ok(values),
    }
}

/// The dependencies that four lists state, or why they are refused.
pub open spec fn dependencies_result(
    owner: Seq<char>,
    required: Seq<Seq<char>>,
    wants: Seq<Seq<char>>,
    after: Seq<Seq<char>>,
    conflicts: Seq<Seq<char>>,
) -> Result<DependenciesModel, ErrorModel> {
    match dependency_list("dependencies.requires"@, required, owner) {
        Err(e) => Err(e),
        Ok(_) => match dependency_list("dependencies.wants"@, wants, owner) {
            Err(e) => Err(e),
            Ok(_) => match dependency_list("dependencies.after"@, after, owner) {
                Err(e) => Err(e),
                Ok(_) => match dependency_list("dependencies.conflicts"@, conflicts, owner) {
                    Err(e) => Err(e),
                    Ok(_) => Ok(DependenciesModel { requires: required, wants, after, conflicts }),
                },
            },
        },
    }
}

/// The dependencies that a raw value states, or why they are refused.
pub open spec fn raw_dependencies_result(raw: RawDependencies, owner: Seq<char>) -> Result<
    DependenciesModel,
    ErrorModel,
> {
    dependencies_result(
        owner,
        text::texts(raw.requires@),
        text::texts(raw.wants@),
        text::texts(raw.after@),
        text::texts(raw.conflicts@),
    )
}

proof fn dependency_list_error_tail(
    field: Seq<char>,
    values: Seq<Seq<char>>,
    owner: Seq<char>,
    n: nat,
)
    requires
        n <= values.len(),
        dependency_list_error(field, values, owner, n) is Some,
    ensures
        dependency_list_error(field, values, owner, values.len()) == dependency_list_error(
            field,
            values,
            owner,
            n,
        ),
    decreases values.len() - n,
{
    if n < values.len() {
        dependency_list_error_tail(field, values, owner, n + 1);
    }
}

/// Whether a list of identifiers holds the given one.
pub fn contains_id(ids: &Vec<ServiceId>, id: &ServiceId) -> (r: bool)
    ensures
        r == id_texts(ids@).contains(id@),
{
    let mut i: usize = 0;
    while i < ids.len()
        invariant
            i <= ids.len(),
            forall|k: int| 0 <= k < i ==> ids@[k]@ != id@,
        decreases ids.len() - i,
    {
        if ids[i].same(id) {
            proof {
                assert(id_texts(ids@)[i as int] == id@);
            }
            return true;
        }
        i = i + 1;
    }
    proof {
        assert forall|k: int| 0 <= k < id_texts(ids@).len() implies id_texts(ids@)[k] != id@ by {
            assert(ids@[k]@ != id@);
        }
    }
    false
}

fn parse_dependency_list(field: &'static str, values: &Vec<String>, owner: &ServiceId) -> (r:
    Result<Vec<ServiceId>, ConfigError>)
    ensures
        match r {
            Ok(ids) => dependency_list(field@, text::texts(values@), owner@) == Ok::<
                Seq<Seq<char>>,
                ErrorModel,
            >(id_texts(ids@)),
            Err(e) => dependency_list(field@, text::texts(values@), owner@) == Err::<
                Seq<Seq<char>>,
                ErrorModel,
            >(e@),
        },
{
    let ghost all = text::texts(values@);
    let mut parsed: Vec<ServiceId> = Vec::new();
    let mut i: usize = 0;
    while i < values.len()
        invariant
            all == text::texts(values@),
            i <= values.len(),
            id_texts(parsed@) == all.take(i as int),
            dependency_list_error(field@, all, owner@, i as nat) is None,
        decreases values.len() - i,
    {
        proof {
            assert(all[i as int] == values@[i as int]@);
        }
        let id = match ServiceId::new(values[i].as_str()) {
            Ok(id) => id,
            Err(e) => {
                proof {
                    dependency_list_error_tail(field@, all, owner@, i as nat + 1);
                }
                return Err(e);
            },
        };
        if id.same(owner) {
            proof {
                dependency_list_error_tail(field@, all, owner@, i as nat + 1);
            }
            return Err(
                ConfigError::InvalidField {
                    field,
                    reason: text::owned("a service cannot depend on itself"),
                },
            );
        }
        if contains_id(&parsed, &id) {
            proof {
                dependency_list_error_tail(field@, all, owner@, i as nat + 1);
            }
            return Err(
                ConfigError::InvalidField {
                    field,
                    reason: text::concat2("duplicate service ", id.as_str()),
                },
            );
        }
        let ghost before = parsed@;
        parsed.push(id);
        proof {
            assert(all.take(i + 1) =~= all.take(i as int).push(all[i as int]));
            assert(id_texts(parsed@) =~= id_texts(before).push(all[i as int]));
        }
        i = i + 1;
    }
    proof {
        assert(all.take(all.len() as int) =~= all);
    }
    Ok(parsed)
}

impl Dependencies {
    /// Checks four dependency lists of one owner.
    pub fn from_raw(raw: &RawDependencies, owner: &ServiceId) -> (r: Result<
        Dependencies,
        ConfigError,
    >)
        ensures
            outcome(r) == raw_dependencies_result(*raw, owner@),
    {
        let requires_ids = match parse_dependency_list(
            "dependencies.requires",
            &raw.requires,
            owner,
        ) {
            Ok(ids) => ids,
            Err(e) => return Err(e),
        };
        let wants = match parse_dependency_list("dependencies.wants", &raw.wants, owner) {
            Ok(ids) => ids,
            Err(e) => return Err(e),
        };
        let after = match parse_dependency_list("dependencies.after", &raw.after, owner) {
            Ok(ids) => ids,
            Err(e) => return Err(e),
        };
        let conflicts = match parse_dependency_list(
            "dependencies.conflicts",
            &raw.conflicts,
            owner,
        ) {
            Ok(ids) => ids,
            Err(e) => return Err(e),
        };
        Ok(Dependencies { requires: requires_ids, wants, after, conflicts })
    }
}

/// The supervision that a supervision table states, or why it is refused.
pub open spec fn supervision_result(raw: RawSupervision) -> Result<Supervision, ErrorModel> {
    if raw.restart_limit > 0 && raw.restart_window_ms == 0 {
        Err(
            field_error(
                "supervision.restart_window_ms"@,
                "must be non-zero when restart_limit is non-zero"@,
            ),
        )
    } else {
        Ok(
            Supervision {
                restart: raw.restart,
                start_timeout_ms: raw.start_timeout_ms,
                stop_timeout_ms: raw.stop_timeout_ms,
                restart_limit: raw.restart_limit,
                restart_window_ms: raw.restart_window_ms,
                restart_reset_ms: raw.restart_reset_ms,
                restart_backoff_max_ms: raw.restart_backoff_max_ms,
            },
        )
    }
}

impl View for Supervision {
    type V = Supervision;

    open spec fn view(&self) -> Supervision {
        *self
    }
}

impl Supervision {
    /// Checks a supervision table.
    pub fn from_raw(raw: &RawSupervision) -> (r: Result<Supervision, ConfigError>)
        ensures
            outcome(r) == supervision_result(*raw),
    {
        if raw.restart_limit > 0 && raw.restart_window_ms == 0 {
            return Err(
                ConfigError::InvalidField {
                    field: "supervision.restart_window_ms",
                    reason: text::owned("must be non-zero when restart_limit is non-zero"),
                },
            );
        }
        Ok(
            Supervision {
                restart: raw.restart,
                start_timeout_ms: raw.start_timeout_ms,
                stop_timeout_ms: raw.stop_timeout_ms,
                restart_limit: raw.restart_limit,
                restart_window_ms: raw.restart_window_ms,
                restart_reset_ms: raw.restart_reset_ms,
                restart_backoff_max_ms: raw.restart_backoff_max_ms,
            },
        )
    }
}

/// Why an optional helper command is refused.
pub open spec fn action_error(field: Seq<char>, command: Option<Vec<String>>) -> Option<
    ErrorModel,
> {
    match command {
        Some(list) => command_error(field, text::texts(list@)),
        None => None,
    }
}

/// The helper commands that an actions table states, or why they are refused.
pub open spec fn actions_result(raw: RawActions) -> Result<ActionsModel, ErrorModel> {
    if action_error("actions.stop"@, raw.stop) is Some {
        Err(action_error("actions.stop"@, raw.stop)->0)
    } else if action_error("actions.reload"@, raw.reload) is Some {
        Err(action_error("actions.reload"@, raw.reload)->0)
    } else {
        Ok(
            ActionsModel {
                stop: text::optional_texts(raw.stop),
                reload: text::optional_texts(raw.reload),
            },
        )
    }
}

impl Actions {
    /// Checks an actions table.
    pub fn from_raw(raw: RawActions) -> (r: Result<Actions, ConfigError>)
        ensures
            outcome(r) == actions_result(raw),
    {
        if let Some(command) = &raw.stop {
            if let Err(e) = validate_command("actions.stop", command) {
                return Err(e);
            }
        }
        if let Some(command) = &raw.reload {
            if let Err(e) = validate_command("actions.reload", command) {
                return Err(e);
            }
        }
        Ok(Actions { stop: raw.stop, reload: raw.reload })
    }
}

/// The target that an output value states, or why it is refused.
pub open spec fn output_result(field: Seq<char>, raw: RawOutput) -> Result<
    OutputModel,
    ErrorModel,
> {
    match raw {
        RawOutput::Console => Ok(OutputModel::Console),
        RawOutput::Null => Ok(OutputModel::Null),
        RawOutput::Append(path) => match absolute_error(field, path@) {
            Some(e) => Err(e),
            None => Ok(OutputModel::Append(path@)),
        },
        RawOutput::Socket(path) => match absolute_error(field, path@) {
            Some(e) => Err(e),
            None => Ok(OutputModel::Socket(path@)),
        },
    }
}

impl OutputTarget {
    /// Checks an output value.
    pub fn from_raw(field: &'static str, raw: RawOutput) -> (r: Result<OutputTarget, ConfigError>)
        ensures
            outcome(r) == output_result(field@, raw),
    {
        match raw {
            RawOutput::Console => Ok(OutputTarget::Console),
            RawOutput::Null => Ok(OutputTarget::Null),
            RawOutput::Append(path) => match require_absolute(field, path.as_str()) {
                Ok(_) => Ok(OutputTarget::Append(path)),
                Err(e) => Err(e),
            },
            RawOutput::Socket(path) => match require_absolute(field, path.as_str()) {
                Ok(_) => Ok(OutputTarget::Socket(path)),
                Err(e) => Err(e),
            },
        }
    }
}

/// The targets that an output table states, or why they are refused.
pub open spec fn io_result(raw: RawIo) -> Result<IoModel, ErrorModel> {
    match output_result("io.stdout"@, raw.stdout) {
        Err(e) => Err(e),
        Ok(stdout) => match output_result("io.stderr"@, raw.stderr) {
            Err(e) => Err(e),
            Ok(stderr) => Ok(IoModel { stdout, stderr }),
        },
    }
}

impl IoDefinition {
    /// Checks an output table.
    pub fn from_raw(raw: RawIo) -> (r: Result<IoDefinition, ConfigError>)
        ensures
            outcome(r) == io_result(raw),
    {
        let stdout = match OutputTarget::from_raw("io.stdout", raw.stdout) {
            Ok(target) => target,
            Err(e) => return Err(e),
        };
        let stderr = match OutputTarget::from_raw("io.stderr", raw.stderr) {
            Ok(target) => target,
            Err(e) => return Err(e),
        };
        Ok(IoDefinition { stdout, stderr })
    }
}

/// Why a schema version is refused.
pub open spec fn schema_error(found: u32) -> Option<ErrorModel> {
    if found == SCHEMA_VERSION {
        None
    } else {
        Some(ErrorModel::UnsupportedSchema { found })
    }
}

/// Requires the current schema version.
pub fn require_schema(found: u32) -> (r: Result<(), ConfigError>)
    ensures
        refusal(r) == schema_error(found),
{
    if found == SCHEMA_VERSION {
        Ok(())
    } else {
        Err(ConfigError::UnsupportedSchema { found })
    }
}

/// The service that the values of a definition file describe, or why they are
/// refused. The checks come in the order schema, process, dependencies,
/// supervision, restart policy, actions, output.
pub open spec fn definition_result(
    id: Seq<char>,
    raw: RawServiceDefinition,
    scope: ManagerScope,
) -> Result<ServiceModel, ErrorModel> {
    if schema_error(raw.schema_version) is Some {
        Err(schema_error(raw.schema_version)->0)
    } else {
        match process_result(raw.process, scope) {
            Err(e) => Err(e),
            Ok(process) => match raw_dependencies_result(raw.dependencies, id) {
                Err(e) => Err(e),
                Ok(dependencies) => match supervision_result(raw.supervision) {
                    Err(e) => Err(e),
                    Ok(supervision) => if process.kind == ProcessType::Oneshot
                        && supervision.restart == RestartPolicy::Always {
                        Err(
                            field_error(
                                "supervision.restart"@,
                                "oneshot services cannot restart after successful completion"@,
                            ),
                        )
                    } else {
                        match actions_result(raw.actions) {
                            Err(e) => Err(e),
                            Ok(actions) => match io_result(raw.io) {
                                Err(e) => Err(e),
                                Ok(io) => Ok(
                                    ServiceModel {
                                        id,
                                        description: raw.description@,
                                        process,
                                        dependencies,
                                        supervision,
                                        actions,
                                        io,
                                    },
                                ),
                            },
                        }
                    },
                },
            },
        }
    }
}

/// The service that a read definition file describes: the reader's own message
/// where the file could not be read into values.
pub open spec fn parse_result(
    id: Seq<char>,
    document: Result<RawServiceDefinition, String>,
    scope: ManagerScope,
) -> Result<ServiceModel, ErrorModel> {
    match document {
        Err(message) => Err(ErrorModel::Toml(message@)),
        Ok(raw) => definition_result(id, raw, scope),
    }
}

impl ServiceDefinition {
    /// Validates one native service definition, given what reading its document
    /// produced: its values, or the reader's message.
    pub fn parse(
        id: ServiceId,
        document: Result<RawServiceDefinition, String>,
        scope: ManagerScope,
    ) -> (r: Result<ServiceDefinition, ConfigError>)
        ensures
            outcome(r) == parse_result(id@, document, scope),
    {
        let raw = match document {
            Ok(raw) => raw,
            Err(message) => return Err(ConfigError::Toml(message)),
        };
        if let Err(e) = require_schema(raw.schema_version) {
            return Err(e);
        }
        let process = match ProcessDefinition::from_raw(raw.process, scope) {
            Ok(process) => process,
            Err(e) => return Err(e),
        };
        let dependencies = match Dependencies::from_raw(&raw.dependencies, &id) {
            Ok(dependencies) => dependencies,
            Err(e) => return Err(e),
        };
        let supervision = match Supervision::from_raw(&raw.supervision) {
            Ok(supervision) => supervision,
            Err(e) => return Err(e),
        };
        if process.kind == ProcessType::Oneshot && supervision.restart == RestartPolicy::Always {
            return Err(
                ConfigError::InvalidField {
                    field: "supervision.restart",
                    reason: text::owned(
                        "oneshot services cannot restart after successful completion",
                    ),
                },
            );
        }
        let actions = match Actions::from_raw(raw.actions) {
            Ok(actions) => actions,
            Err(e) => return Err(e),
        };
        let io = match IoDefinition::from_raw(raw.io) {
            Ok(io) => io,
            Err(e) => return Err(e),
        };
        Ok(
            ServiceDefinition {
                id,
                description: raw.description,
                process,
                dependencies,
                supervision,
                actions,
                io,
            },
        )
    }
}

fn same_ids(a: &Vec<ServiceId>, b: &Vec<ServiceId>) -> (r: bool)
    ensures
        r == (id_texts(a@) == id_texts(b@)),
{
    if a.len() != b.len() {
        proof {
            assert(id_texts(a@).len() != id_texts(b@).len());
        }
        return false;
    }
    let mut i: usize = 0;
    while i < a.len()
        invariant
            a.len() == b.len(),
            i <= a.len(),
            forall|k: int| 0 <= k < i ==> id_texts(a@)[k] == id_texts(b@)[k],
        decreases a.len() - i,
    {
        if !a[i].same(&b[i]) {
            proof {
                assert(id_texts(a@)[i as int] != id_texts(b@)[i as int]);
            }
            return false;
        }
        i = i + 1;
    }
    proof {
        assert(id_texts(a@) =~= id_texts(b@));
    }
    true
}

fn same_identities(a: &Vec<IdentitySpec>, b: &Vec<IdentitySpec>) -> (r: bool)
    ensures
        r == (identities(a@) == identities(b@)),
{
    if a.len() != b.len() {
        proof {
            assert(identities(a@).len() != identities(b@).len());
        }
        return false;
    }
    let mut i: usize = 0;
    while i < a.len()
        invariant
            a.len() == b.len(),
            i <= a.len(),
            forall|k: int| 0 <= k < i ==> identities(a@)[k] == identities(b@)[k],
        decreases a.len() - i,
    {
        if !a[i].same(&b[i]) {
            proof {
                assert(identities(a@)[i as int] != identities(b@)[i as int]);
            }
            return false;
        }
        i = i + 1;
    }
    proof {
        assert(identities(a@) =~= identities(b@));
    }
    true
}

fn same_command(a: &Option<Vec<String>>, b: &Option<Vec<String>>) -> (r: bool)
    ensures
        r == (text::optional_texts(*a) == text::optional_texts(*b)),
{
    match (a, b) {
        (Some(left), Some(right)) => text::same_texts(left, right),
        (None, None) => true,
        _ => false,
    }
}

impl ProcessModel {
    /// The process with its path in the plainest form.
    pub open spec fn plain(self) -> ProcessModel {
        ProcessModel { working_directory: plain_path(self.working_directory), ..self }
    }
}

impl IoModel {
    /// The targets with their paths in the plainest form.
    pub open spec fn plain(self) -> IoModel {
        IoModel { stdout: self.stdout.plain(), stderr: self.stderr.plain() }
    }
}

impl ServiceModel {
    /// The service with its paths in the plainest form.
    pub open spec fn plain(self) -> ServiceModel {
        ServiceModel { process: self.process.plain(), io: self.io.plain(), ..self }
    }
}

/// Services with their paths in the plainest form.
pub open spec fn plain_services(list: Seq<ServiceModel>) -> Seq<ServiceModel> {
    Seq::new(list.len(), |i: int| list[i].plain())
}

impl ProcessDefinition {
    /// Whether both run a process in the same way.
    pub fn same(&self, other: &ProcessDefinition) -> (r: bool)
        ensures
            r == (self@.plain() == other@.plain()),
    {
        text::same_texts(&self.command, &other.command) && self.kind == other.kind
            && self.readiness == other.readiness && self.user.same(&other.user)
            && self.group.same(&other.group) && same_identities(
            &self.supplementary_groups,
            &other.supplementary_groups,
        ) && same_path(
            self.working_directory.as_str(),
            other.working_directory.as_str(),
        ) && self.environment.same(&other.environment) && self.umask == other.umask
    }
}

impl Dependencies {
    /// Whether both hold the same lists.
    pub fn same(&self, other: &Dependencies) -> (r: bool)
        ensures
            r == (self@ == other@),
    {
        same_ids(&self.requires, &other.requires) && same_ids(&self.wants, &other.wants)
            && same_ids(&self.after, &other.after) && same_ids(&self.conflicts, &other.conflicts)
    }
}

impl Actions {
    /// Whether both hold the same helper commands.
    pub fn same(&self, other: &Actions) -> (r: bool)
        ensures
            r == (self@ == other@),
    {
        same_command(&self.stop, &other.stop) && same_command(&self.reload, &other.reload)
    }
}

impl IoDefinition {
    /// Whether both lead to the same places.
    pub fn same(&self, other: &IoDefinition) -> (r: bool)
        ensures
            r == (self@.plain() == other@.plain()),
    {
        self.stdout.same(&other.stdout) && self.stderr.same(&other.stderr)
    }
}

impl ServiceDefinition {
    /// Whether both define the same service.
    pub fn same(&self, other: &ServiceDefinition) -> (r: bool)
        ensures
            r == (self@.plain() == other@.plain()),
    {
        self.id.same(&other.id) && self.description == other.description && self.process.same(
            &other.process,
        ) && self.dependencies.same(&other.dependencies) && self.supervision
            == other.supervision && self.actions.same(&other.actions) && self.io.same(&other.io)
    }
}

/// The last component of a path, once trailing slashes and `.` components are
/// gone. There is none where nothing is left, or where it is `..`.
pub open spec fn last_component(path: Seq<char>) -> Option<Seq<char>>
    decreases path.len(),
{
    let last = text::last_part(path, '/');
    if last.len() > 0 && last != "."@ {
        if last == ".."@ {
            None
        } else {
            Some(last)
        }
    } else if last.len() >= path.len() {
        None
    } else {
        proof {
            text::last_part_law(path, '/');
        }
        last_component(path.take(path.len() - last.len() - 1))
    }
}

fn file_name(path: &str) -> (r: Option<String>)
    ensures
        text::optional_text(r) == last_component(path@),
{
    let chars = text::chars_of(path);
    let mut end: usize = chars.len();
    proof {
        assert(path@.take(end as int) =~= path@);
    }
    loop
        invariant
            chars@ == path@,
            end <= chars.len(),
            last_component(path@) == last_component(path@.take(end as int)),
        decreases end,
    {
        let ghost current = path@.take(end as int);
        let mut start: usize = end;
        proof {
            assert(current.take(start as int) =~= current);
            assert(text::last_part(current, '/') =~= text::last_part(current, '/')
                + current.subrange(start as int, end as int));
        }
        while start > 0 && chars[start - 1] != '/'
            invariant
                chars@ == path@,
                start <= end <= chars.len(),
                current == path@.take(end as int),
                text::last_part(current, '/') == text::last_part(current.take(start as int), '/')
                    + current.subrange(start as int, end as int),
            decreases start,
        {
            proof {
                let prefix = current.take(start as int);
                assert(prefix.drop_last() =~= current.take(start - 1));
                assert(text::last_part(prefix.drop_last(), '/').push(prefix.last())
                    + current.subrange(start as int, end as int) =~= text::last_part(
                    current.take(start - 1),
                    '/',
                ) + current.subrange(start - 1, end as int));
            }
            start = start - 1;
        }
        let last = text::string_of_range(chars.as_slice(), start, end);
        proof {
            assert(current.subrange(start as int, end as int) =~= path@.subrange(
                start as int,
                end as int,
            ));
            assert(text::last_part(current.take(start as int), '/') =~= Seq::empty());
            assert(text::last_part(current, '/') =~= last@);
        }
        if end > start && !text::same_text(last.as_str(), ".") {
            if text::same_text(last.as_str(), "..") {
                return None;
            }
            return Some(last);
        }
        if start == 0 {
            return None;
        }
        proof {
            assert(current.take(current.len() - last@.len() - 1) =~= path@.take(start - 1));
        }
        end = start - 1;
    }
}

/// The identifier that a path of a definition file gives, or why it is refused.
pub open spec fn path_result(path: Seq<char>) -> Result<Seq<char>, ErrorModel> {
    match last_component(path) {
        None => Err(ErrorModel::InvalidServicePath(path)),
        Some(name) => if !text::has_suffix(name, ".toml"@) {
            Err(ErrorModel::InvalidServicePath(path))
        } else {
            let stem = name.take(name.len() - ".toml"@.len());
            if valid_identifier(stem) {
                Ok(stem)
            } else {
                Err(ErrorModel::InvalidServiceId(stem))
            }
        },
    }
}

impl ServiceId {
    /// Derives an identifier from the path of a `.toml` definition file.
    pub fn from_path(path: &str) -> (r: Result<ServiceId, ConfigError>)
        ensures
            outcome(r) == path_result(path@),
    {
        match file_name(path) {
            None => Err(ConfigError::InvalidServicePath(text::owned(path))),
            Some(name) => match text::strip_suffix(name.as_str(), ".toml") {
                None => Err(ConfigError::InvalidServicePath(text::owned(path))),
                Some(stem) => ServiceId::new(stem.as_str()),
            },
        }
    }
}

/// The identifiers as strings.
pub fn id_strings(ids: &Vec<ServiceId>) -> (r: Vec<String>)
    ensures
        text::texts(r@) == id_texts(ids@),
{
    let mut r: Vec<String> = Vec::new();
    let mut i: usize = 0;
    while i < ids.len()
        invariant
            i <= ids.len(),
            r@.len() == i,
            forall|k: int| 0 <= k < i ==> r@[k]@ == ids@[k]@,
        decreases ids.len() - i,
    {
        r.push(ids[i].to_text());
        i = i + 1;
    }
    proof {
        assert(text::texts(r@) =~= id_texts(ids@));
    }
    r
}

/// The text of a configuration error.
pub open spec fn error_message(error: ErrorModel) -> Seq<char> {
    match error {
        ErrorModel::InvalidServiceId(value) => "invalid service identifier "@ + text::debug_quoted(
            value,
        ),
        ErrorModel::InvalidServicePath(path) =>
            "service path must end in a valid .toml filename: "@ + path,
        ErrorModel::UnsupportedSchema { found } => "unsupported schema version "@ + text::decimal(
            found as nat,
        ) + "; supported version is 1"@,
        ErrorModel::InvalidField { field, reason } => "invalid "@ + field + ": "@ + reason,
        ErrorModel::DuplicateDefinition(id) => "duplicate definition for "@ + id,
        ErrorModel::AmbiguousDefinition(id) => "service and group share the identifier "@ + id,
        ErrorModel::MissingDefaultGroup(id) => "default group "@ + id + " does not exist"@,
        ErrorModel::MissingDependency { owner, relation, target } => owner
            + " references missing "@ + relation + " target "@ + target,
        ErrorModel::DependencyCycle(ids) => "dependency cycle: "@ + text::join(ids, " -> "@),
        ErrorModel::EnabledConflict { group, left, right } => "group "@ + group
            + " activates conflicting nodes "@ + left + " and "@ + right,
        ErrorModel::Toml(message) => "invalid TOML: "@ + message,
    }
}

impl ConfigError {
    /// The text of the error.
    pub fn message(&self) -> (r: String)
        ensures
            r@ == error_message(self@),
    {
        match self {
            ConfigError::InvalidServiceId(value) => {
                let quoted = text::debug_text(value.as_str());
                text::concat2("invalid service identifier ", quoted.as_str())
            },
            ConfigError::InvalidServicePath(path) => text::concat2(
                "service path must end in a valid .toml filename: ",
                path.as_str(),
            ),
            ConfigError::UnsupportedSchema { found } => {
                let number = text::decimal_string(*found as u64);
                text::concat3(
                    "unsupported schema version ",
                    number.as_str(),
                    "; supported version is 1",
                )
            },
            ConfigError::InvalidField { field, reason } => {
                let mut r = text::concat3("invalid ", field, ": ");
                r.append(reason.as_str());
                r
            },
            ConfigError::DuplicateDefinition(id) => text::concat2(
                "duplicate definition for ",
                id.as_str(),
            ),
            ConfigError::AmbiguousDefinition(id) => text::concat2(
                "service and group share the identifier ",
                id.as_str(),
            ),
            ConfigError::MissingDefaultGroup(id) => text::concat3(
                "default group ",
                id.as_str(),
                " does not exist",
            ),
            ConfigError::MissingDependency { owner, relation, target } => {
                let mut r = text::concat3(owner.as_str(), " references missing ", relation);
                r.append(" target ");
                r.append(target.as_str());
                r
            },
            ConfigError::DependencyCycle(ids) => {
                let names = id_strings(ids);
                let path = text::join_strings(&names, " -> ");
                text::concat2("dependency cycle: ", path.as_str())
            },
            ConfigError::EnabledConflict { group, left, right } => {
                let mut r = text::concat3(
                    "group ",
                    group.as_str(),
                    " activates conflicting nodes ",
                );
                r.append(left.as_str());
                r.append(" and ");
                r.append(right.as_str());
                r
            },
            ConfigError::Toml(message) => text::concat2("invalid TOML: ", message.as_str()),
        }
    }
}

/// Which texts are identifiers: one to 128 characters, the first a letter or a digit, the
/// others letters, digits, or one of the four signs `_`, `.`, `@` and `-`.
pub proof fn identifier_law(s: Seq<char>)
    ensures
        valid_identifier(s) <==> {
            &&& 0 < s.len() <= 128
            &&& 'A' <= s[0] <= 'Z' || 'a' <= s[0] <= 'z' || '0' <= s[0] <= '9'
            &&& forall|i: int|
                0 <= i < s.len() ==> {
                    ||| 'A' <= #[trigger] s[i] <= 'Z'
                    ||| 'a' <= s[i] <= 'z'
                    ||| '0' <= s[i] <= '9'
                    ||| s[i] == '_'
                    ||| s[i] == '.'
                    ||| s[i] == '@'
                    ||| s[i] == '-'
                }
        },
{
    if valid_identifier(s) {
        assert forall|i: int| 0 <= i < s.len() implies {
            ||| 'A' <= #[trigger] s[i] <= 'Z'
            ||| 'a' <= s[i] <= 'z'
            ||| '0' <= s[i] <= '9'
            ||| s[i] == '_'
            ||| s[i] == '.'
            ||| s[i] == '@'
            ||| s[i] == '-'
        } by {
            assert(is_id_char(s[i]));
        }
    }
}

/// Whether a command can be run: it names an executable by a path from the root, and no
/// part of it holds a NUL.
pub open spec fn runnable(command: Seq<Seq<char>>) -> bool {
    &&& command.len() > 0
    &&& command[0].len() > 0 && command[0][0] == '/'
    &&& forall|i: int| 0 <= i < command.len() ==> !(#[trigger] command[i]).contains('\0')
}

/// Whether an identity can be looked up: it is a number, or a name that is not empty and has
/// neither a colon nor a NUL.
pub open spec fn nameable(identity: IdentityModel) -> bool {
    identity matches IdentityModel::Name(name) ==> name.len() > 0 && !name.contains(':')
        && !name.contains('\0')
}

/// Whether names can be depended on by their owner: each is an identifier, none is the
/// owner's, and none occurs twice.
pub open spec fn dependable(values: Seq<Seq<char>>, owner: Seq<char>) -> bool {
    &&& forall|i: int|
        0 <= i < values.len() ==> valid_identifier(#[trigger] values[i]) && values[i] != owner
    &&& forall|i: int, j: int| 0 <= i < j < values.len() ==> values[i] != values[j]
}

/// Whether an output can be opened: where it is a file or a socket, by a path from the root.
pub open spec fn openable(raw: RawOutput) -> bool {
    match raw {
        RawOutput::Console => true,
        RawOutput::Null => true,
        RawOutput::Append(path) => path@.len() > 0 && path@[0] == '/',
        RawOutput::Socket(path) => path@.len() > 0 && path@[0] == '/',
    }
}

/// What a process table describes: each value is the one of the same name. A oneshot is
/// ready when it has completed. Who names no user runs as root, or as the manager in a user
/// manager; who names no group runs in the group of the user that is named, in that of root
/// where none is, and in the manager's in a user manager.
pub proof fn process_law(raw: RawProcess, scope: ManagerScope, p: ProcessModel)
    requires
        process_result(raw, scope) == Ok::<ProcessModel, ErrorModel>(p),
    ensures
        p.command == text::texts(raw.command@),
        p.kind == raw.kind,
        raw.kind == ProcessType::Oneshot ==> p.readiness == Readiness::Completion,
        raw.kind == ProcessType::Simple && raw.readiness == RawReadiness::Exec ==> p.readiness
            == Readiness::Exec,
        raw.kind == ProcessType::Simple && raw.readiness == RawReadiness::Notify ==> p.readiness
            == Readiness::Notify,
        p.working_directory == raw.working_directory@,
        p.environment == raw.environment@,
        p.umask == raw.umask,
        p.supplementary_groups.len() == raw.supplementary_groups@.len(),
        forall|i: int|
            0 <= i < raw.supplementary_groups@.len() ==> #[trigger] p.supplementary_groups[i]
                == raw.supplementary_groups@[i]@,
        match raw.user {
            Some(user) => p.user == SelectionModel::Explicit(user@),
            None => if scope == ManagerScope::System {
                p.user == SelectionModel::Explicit(IdentityModel::Name("root"@))
            } else {
                p.user is Manager
            },
        },
        match raw.group {
            Some(group) => p.group == SelectionModel::Explicit(group@),
            None => if scope == ManagerScope::User {
                p.group is Manager
            } else if raw.user is Some {
                p.group is UserPrimary
            } else {
                p.group == SelectionModel::Explicit(IdentityModel::Name("root"@))
            },
        },
{
}

/// What a definition describes: a service of that name whose every value is the one of the
/// same name.
pub proof fn definition_law(
    id: Seq<char>,
    raw: RawServiceDefinition,
    scope: ManagerScope,
    s: ServiceModel,
)
    requires
        definition_result(id, raw, scope) == Ok::<ServiceModel, ErrorModel>(s),
    ensures
        s.id == id,
        s.description == raw.description@,
        process_result(raw.process, scope) == Ok::<ProcessModel, ErrorModel>(s.process),
        s.dependencies.requires == text::texts(raw.dependencies.requires@),
        s.dependencies.wants == text::texts(raw.dependencies.wants@),
        s.dependencies.after == text::texts(raw.dependencies.after@),
        s.dependencies.conflicts == text::texts(raw.dependencies.conflicts@),
        s.supervision.restart == raw.supervision.restart,
        s.supervision.start_timeout_ms == raw.supervision.start_timeout_ms,
        s.supervision.stop_timeout_ms == raw.supervision.stop_timeout_ms,
        s.supervision.restart_limit == raw.supervision.restart_limit,
        s.supervision.restart_window_ms == raw.supervision.restart_window_ms,
        s.supervision.restart_reset_ms == raw.supervision.restart_reset_ms,
        s.supervision.restart_backoff_max_ms == raw.supervision.restart_backoff_max_ms,
        s.actions.stop == text::optional_texts(raw.actions.stop),
        s.actions.reload == text::optional_texts(raw.actions.reload),
        leads_to(raw.io.stdout, s.io.stdout),
        leads_to(raw.io.stderr, s.io.stderr),
{
}

/// Whether a target is the one that an output value states.
pub open spec fn leads_to(raw: RawOutput, target: OutputModel) -> bool {
    match raw {
        RawOutput::Console => target is Console,
        RawOutput::Null => target is Null,
        RawOutput::Append(path) => target == OutputModel::Append(path@),
        RawOutput::Socket(path) => target == OutputModel::Socket(path@),
    }
}

pub(crate) proof fn runnable_law(field: Seq<char>, command: Seq<Seq<char>>)
    ensures
        command_error(field, command) is None <==> runnable(command),
        command_error(field, command) matches Some(e) ==> (e matches ErrorModel::InvalidField {
            field: found,
            ..
        } && found == field),
{
}

proof fn identities_error_law(list: Seq<IdentityModel>, n: nat)
    requires
        n <= list.len(),
    ensures
        identities_error(list, n) is None <==> forall|i: int|
            0 <= i < n ==> nameable(#[trigger] list[i]),
        identities_error(list, n) matches Some(e) ==> (e matches ErrorModel::InvalidField {
            field,
            ..
        } && field == "process identity"@),
    decreases n,
{
    if n > 0 {
        identities_error_law(list, (n - 1) as nat);
    }
}

proof fn environment_error_law(entries: Seq<(Seq<char>, Seq<char>)>, n: nat)
    requires
        n <= entries.len(),
    ensures
        environment_error(entries, n) is None <==> forall|i: int|
            0 <= i < n ==> settable(#[trigger] entries[i]),
        environment_error(entries, n) matches Some(e) ==> (e matches ErrorModel::InvalidField {
            field,
            ..
        } && field == "process.environment"@),
    decreases n,
{
    if n > 0 {
        environment_error_law(entries, (n - 1) as nat);
    }
}

/// Whether a variable can be set: its name is not empty and has neither an equals sign nor a
/// NUL, and its value has no NUL.
pub open spec fn settable(entry: (Seq<char>, Seq<char>)) -> bool {
    &&& entry.0.len() > 0
    &&& !entry.0.contains('=')
    &&& !entry.0.contains('\0')
    &&& !entry.1.contains('\0')
}

/// Which process tables are accepted: those with a command that can be run, a working
/// directory from the root, a file mask of nine bits, accounts and groups that can be looked
/// up, no further group twice, variables that can be set, and, for a oneshot, no readiness
/// that it would have to announce. Who is refused is told the field.
pub proof fn process_accept_law(raw: RawProcess, scope: ManagerScope)
    ensures
        process_result(raw, scope) is Ok <==> {
            &&& runnable(text::texts(raw.command@))
            &&& raw.working_directory@.len() > 0 && raw.working_directory@[0] == '/'
            &&& raw.umask <= 0o777
            &&& raw.user matches Some(user) ==> nameable(user@)
            &&& raw.group matches Some(group) ==> nameable(group@)
            &&& forall|i: int|
                0 <= i < raw.supplementary_groups@.len() ==> nameable(
                    (#[trigger] raw.supplementary_groups@[i])@,
                )
            &&& forall|i: int, j: int|
                0 <= i < j < raw.supplementary_groups@.len() ==> raw.supplementary_groups@[i]@
                    != raw.supplementary_groups@[j]@
            &&& forall|i: int|
                0 <= i < raw.environment@.len() ==> settable(#[trigger] raw.environment@[i])
            &&& !(raw.kind == ProcessType::Oneshot && raw.readiness == RawReadiness::Notify)
        },
        process_result(raw, scope) matches Err(e) ==> (e matches ErrorModel::InvalidField {
            field,
            ..
        } && {
            ||| field == "process.command"@ && !runnable(text::texts(raw.command@))
            ||| field == "process.working_directory"@ && !(raw.working_directory@.len() > 0
                && raw.working_directory@[0] == '/')
            ||| field == "process.umask"@ && raw.umask > 0o777
            ||| field == "process identity"@
            ||| field == "process.supplementary_groups"@
            ||| field == "process.environment"@
            ||| field == "process.readiness"@ && raw.kind == ProcessType::Oneshot && raw.readiness
                == RawReadiness::Notify
        }),
{
    runnable_law("process.command"@, text::texts(raw.command@));
    let named = named_identities(raw);
    identities_error_law(named, named.len());
    environment_error_law(raw.environment@, raw.environment@.len());
    let a = optional_identity(raw.user);
    let b = optional_identity(raw.group);
    let d = identities(raw.supplementary_groups@);
    assert(named =~= a + b + d);
    if forall|i: int| 0 <= i < named.len() ==> nameable(#[trigger] named[i]) {
        if raw.user is Some {
            assert(named[0] == a[0]);
            assert(nameable(named[0]));
        }
        if raw.group is Some {
            assert(named[a.len() as int] == b[0]);
            assert(nameable(named[a.len() as int]));
        }
        assert forall|i: int| 0 <= i < raw.supplementary_groups@.len() implies nameable(
            (#[trigger] raw.supplementary_groups@[i])@,
        ) by {
            assert(named[(a.len() + b.len()) as int + i] == d[i]);
            assert(nameable(named[(a.len() + b.len()) as int + i]));
        }
    }
    if (raw.user matches Some(user) ==> nameable(user@)) && (raw.group matches Some(group)
        ==> nameable(group@)) && (forall|i: int|
        0 <= i < raw.supplementary_groups@.len() ==> nameable(
            (#[trigger] raw.supplementary_groups@[i])@,
        )) {
        assert forall|i: int| 0 <= i < named.len() implies nameable(#[trigger] named[i]) by {
            if i >= a.len() + b.len() {
                assert(named[i] == d[i - (a.len() + b.len())]);
                assert(nameable(raw.supplementary_groups@[i - (a.len() + b.len())]@));
            }
        }
    }
    if has_duplicate(d) {
        let (i, j) = choose|i: int, j: int| 0 <= i < j < d.len() && d[i] == d[j];
        assert(raw.supplementary_groups@[i]@ == raw.supplementary_groups@[j]@);
    } else {
        assert forall|i: int, j: int|
            0 <= i < j < raw.supplementary_groups@.len() implies raw.supplementary_groups@[i]@
            != raw.supplementary_groups@[j]@ by {
            assert(d[i] == raw.supplementary_groups@[i]@);
            assert(d[j] == raw.supplementary_groups@[j]@);
        }
    }
}

proof fn dependency_list_law(
    field: Seq<char>,
    values: Seq<Seq<char>>,
    owner: Seq<char>,
    n: nat,
)
    requires
        n <= values.len(),
    ensures
        dependency_list_error(field, values, owner, n) is None <==> dependable(
            values.take(n as int),
            owner,
        ),
    decreases n,
{
    let head = values.take(n as int);
    if n > 0 {
        let shorter = values.take(n - 1);
        dependency_list_law(field, values, owner, (n - 1) as nat);
        assert forall|i: int| 0 <= i < n - 1 implies #[trigger] head[i] == shorter[i] by {}
        if dependable(head, owner) {
            assert(dependable(shorter, owner)) by {
                assert forall|i: int| 0 <= i < shorter.len() implies valid_identifier(
                    #[trigger] shorter[i],
                ) && shorter[i] != owner by {
                    assert(valid_identifier(head[i]));
                }
                assert forall|i: int, j: int| 0 <= i < j < shorter.len() implies shorter[i]
                    != shorter[j] by {
                    assert(head[i] != head[j]);
                }
            }
            assert(valid_identifier(head[n - 1]));
            if shorter.contains(values[n - 1]) {
                let k = choose|k: int| 0 <= k < shorter.len() && shorter[k] == values[n - 1];
                assert(head[k] != head[n - 1]);
            }
        }
        if dependable(shorter, owner) && dependency_error(field, values, owner, n - 1) is None {
            assert forall|i: int| 0 <= i < head.len() implies valid_identifier(
                #[trigger] head[i],
            ) && head[i] != owner by {
                if i < n - 1 {
                    assert(valid_identifier(shorter[i]));
                }
            }
            assert forall|i: int, j: int| 0 <= i < j < head.len() implies head[i]
                != head[j] by {
                assert(head[i] == shorter[i]);
                if j == n - 1 {
                    assert(shorter.contains(shorter[i]));
                } else {
                    assert(shorter[i] != shorter[j]);
                }
            }
        }
    }
}

/// Which lists of dependencies are accepted: those in which each of the four names
/// identifiers, none of them the owner's and none twice.
pub proof fn dependencies_accept_law(raw: RawDependencies, owner: Seq<char>)
    ensures
        raw_dependencies_result(raw, owner) is Ok <==> {
            &&& dependable(text::texts(raw.requires@), owner)
            &&& dependable(text::texts(raw.wants@), owner)
            &&& dependable(text::texts(raw.after@), owner)
            &&& dependable(text::texts(raw.conflicts@), owner)
        },
        raw_dependencies_result(raw, owner) matches Ok(d) ==> {
            &&& d.requires == text::texts(raw.requires@)
            &&& d.wants == text::texts(raw.wants@)
            &&& d.after == text::texts(raw.after@)
            &&& d.conflicts == text::texts(raw.conflicts@)
        },
{
    let lists = seq![
        text::texts(raw.requires@),
        text::texts(raw.wants@),
        text::texts(raw.after@),
        text::texts(raw.conflicts@),
    ];
    dependency_list_law("dependencies.requires"@, lists[0], owner, lists[0].len());
    dependency_list_law("dependencies.wants"@, lists[1], owner, lists[1].len());
    dependency_list_law("dependencies.after"@, lists[2], owner, lists[2].len());
    dependency_list_law("dependencies.conflicts"@, lists[3], owner, lists[3].len());
    assert(lists[0].take(lists[0].len() as int) =~= lists[0]);
    assert(lists[1].take(lists[1].len() as int) =~= lists[1]);
    assert(lists[2].take(lists[2].len() as int) =~= lists[2]);
    assert(lists[3].take(lists[3].len() as int) =~= lists[3]);
}

/// Which definitions are accepted: those of the first schema whose process table and
/// dependencies are, with a window for the restarts that they allow, without a oneshot that
/// is always restarted, with helpers that can be run and outputs that can be opened.
pub proof fn definition_accept_law(id: Seq<char>, raw: RawServiceDefinition, scope: ManagerScope)
    ensures
        definition_result(id, raw, scope) is Ok <==> {
            &&& raw.schema_version == 1
            &&& process_result(raw.process, scope) is Ok
            &&& raw_dependencies_result(raw.dependencies, id) is Ok
            &&& raw.supervision.restart_limit == 0 || raw.supervision.restart_window_ms > 0
            &&& !(raw.process.kind == ProcessType::Oneshot && raw.supervision.restart
                == RestartPolicy::Always)
            &&& raw.actions.stop matches Some(command) ==> runnable(text::texts(command@))
            &&& raw.actions.reload matches Some(command) ==> runnable(text::texts(command@))
            &&& openable(raw.io.stdout)
            &&& openable(raw.io.stderr)
        },
        raw.schema_version != 1 ==> definition_result(id, raw, scope) == Err::<
            ServiceModel,
            ErrorModel,
        >(ErrorModel::UnsupportedSchema { found: raw.schema_version }),
{
    if let Some(command) = raw.actions.stop {
        runnable_law("actions.stop"@, text::texts(command@));
    }
    if let Some(command) = raw.actions.reload {
        runnable_law("actions.reload"@, text::texts(command@));
    }
}

/// A definition file gives its service the name of the file: what a directory and `.toml`
/// are put around, where it is an identifier.
pub proof fn path_law(directory: Seq<char>, id: Seq<char>)
    requires
        valid_identifier(id),
    ensures
        path_result(directory + "/"@ + id + ".toml"@) == Ok::<Seq<char>, ErrorModel>(id),
{
    reveal_strlit("/");
    reveal_strlit(".toml");
    reveal_strlit(".");
    reveal_strlit("..");
    let name = id + ".toml"@;
    let path = directory + "/"@ + id + ".toml"@;
    assert forall|i: int| 0 <= i < name.len() implies #[trigger] name[i] != '/' by {
        if i < id.len() {
            assert(is_id_char(id[i]));
        }
    }
    assert(path =~= (directory + "/"@) + name);
    last_part_after(directory, name);
    assert(name.take(name.len() - ".toml"@.len()) =~= id);
    assert(name.subrange(name.len() - ".toml"@.len(), name.len() as int) =~= ".toml"@);
}

proof fn last_part_after(directory: Seq<char>, name: Seq<char>)
    requires
        forall|i: int| 0 <= i < name.len() ==> #[trigger] name[i] != '/',
    ensures
        text::last_part((directory + "/"@) + name, '/') == name,
    decreases name.len(),
{
    reveal_strlit("/");
    let path = (directory + "/"@) + name;
    if name.len() == 0 {
        assert(path.last() == '/');
        assert(text::last_part(path, '/') =~= name);
    } else {
        last_part_after(directory, name.drop_last());
        assert(path.drop_last() =~= (directory + "/"@) + name.drop_last());
        assert(path.last() == name.last());
        assert(name.last() == name[name.len() - 1]);
        assert(text::last_part(path, '/') =~= name);
    }
}

proof fn components_whole(parts: Seq<Seq<char>>, from: int, n: nat)
    requires
        0 <= from <= n <= parts.len(),
        forall|i: int| 0 <= i < from ==> (#[trigger] parts[i]).len() == 0,
        forall|i: int| from <= i < n ==> (#[trigger] parts[i]).len() > 0 && parts[i] != "."@,
    ensures
        components(parts, n) == parts.subrange(from, n as int),
    decreases n,
{
    if n == 0 {
        assert(components(parts, n) =~= parts.subrange(from, 0));
    } else if n == from {
        assert forall|i: int| 0 <= i < n - 1 implies (#[trigger] parts[i]).len() == 0 by {}
        components_whole(parts, n - 1, (n - 1) as nat);
        assert(parts[n - 1].len() == 0);
        assert(components(parts, n) =~= parts.subrange(from, n as int));
    } else {
        components_whole(parts, from, (n - 1) as nat);
        assert(parts[n - 1].len() > 0);
        assert(components(parts, n) =~= parts.subrange(from, n as int));
    }
}

proof fn join_after_empty(rest: Seq<Seq<char>>)
    requires
        rest.len() > 0,
    ensures
        text::join(seq![Seq::<char>::empty()] + rest, "/"@) == "/"@ + text::join(rest, "/"@),
    decreases rest.len(),
{
    let all = seq![Seq::<char>::empty()] + rest;
    assert(all.last() == rest.last());
    if rest.len() == 1 {
        let first = seq![Seq::<char>::empty()];
        assert(all.drop_last() =~= first);
        assert(text::join(first, "/"@) == first[0]);
        assert(text::join(rest, "/"@) == rest[0]);
        assert(text::join(all, "/"@) =~= "/"@ + text::join(rest, "/"@));
    } else {
        join_after_empty(rest.drop_last());
        assert(all.drop_last() =~= seq![Seq::<char>::empty()] + rest.drop_last());
        assert(text::join(all, "/"@) =~= "/"@ + text::join(rest, "/"@));
    }
}

/// A path from the root that has no part to leave out is as plain as can be: two such paths are
/// the same exactly where they are written alike.
pub proof fn plain_path_law(path: Seq<char>)
    requires
        path.len() > 1,
        path[0] == '/',
        text::split(path, '/')[0].len() == 0,
        forall|i: int|
            0 < i < text::split(path, '/').len() ==> (#[trigger] text::split(path, '/')[i]).len()
                > 0 && text::split(path, '/')[i] != "."@,
        text::split(path, '/').len() > 1,
    ensures
        plain_path(path) == path,
{
    let parts = text::split(path, '/');
    reveal_strlit("/");
    assert("/"@ =~= seq!['/']);
    text::split_law(path, '/');
    assert forall|i: int| 0 <= i < 1 implies (#[trigger] parts[i]).len() == 0 by {}
    components_whole(parts, 1, parts.len());
    let rest = parts.subrange(1, parts.len() as int);
    join_after_empty(rest);
    assert(parts[0] =~= Seq::<char>::empty());
    assert(seq![Seq::<char>::empty()] + rest =~= parts);
}

/// What a path may have besides: a slash at its end, or a part that stays where it is, makes no
/// other path of it.
pub proof fn same_place_law(path: Seq<char>)
    requires
        path.len() > 0,
    ensures
        plain_path(path.push('/')) == plain_path(path),
        plain_path(path.push('/').push('.')) == plain_path(path),
{
    reveal_strlit(".");
    let parts = text::split(path, '/');
    let slashed = path.push('/');
    let dotted = slashed.push('.');
    text::split_law(path, '/');
    assert(slashed.drop_last() =~= path);
    assert(dotted.drop_last() =~= slashed);
    let more = text::split(slashed, '/');
    let most = text::split(dotted, '/');
    assert(more == parts.push(Seq::<char>::empty()));
    assert(most =~= parts.push("."@)) by {
        assert(more.drop_last() =~= parts);
        assert(more.last().push('.') =~= "."@);
    }
    components_prefix(parts, more, parts.len());
    components_prefix(parts, most, parts.len());
    assert(more[0] == parts[0] && most[0] == parts[0]);
}

proof fn components_prefix(a: Seq<Seq<char>>, b: Seq<Seq<char>>, n: nat)
    requires
        n <= a.len(),
        n <= b.len(),
        forall|i: int| 0 <= i < n ==> a[i] == b[i],
    ensures
        components(a, n) == components(b, n),
    decreases n,
{
    if n > 0 {
        components_prefix(a, b, (n - 1) as nat);
    }
}

/// Where a path begins matters: one from the root and one from elsewhere are never the same.
pub proof fn rooted_law(path: Seq<char>)
    requires
        path.len() > 0,
        path[0] == '/',
    ensures
        plain_path(path).len() > 0 && plain_path(path)[0] == '/',
{
    reveal_strlit("/");
}

} // verus!
