//! The manager: its options, where its files lie, and its errors.

use vstd::prelude::*;

use crate::config_edit;
use crate::config_edit::{EditError, EditErrorModel};
use crate::identity;
use crate::identity::{IdentityError, IdentityErrorModel};
use crate::loader;
use crate::loader::{ConfigLoader, LoadError, LoadErrorModel};
use crate::model::ManagerScope;
use crate::protocol::StatusCode;
use crate::runtime;
use crate::runtime::{RuntimeError, RuntimeErrorModel};
use crate::text;

verus! {

broadcast use vstd::string::group_string_axioms;

/// Which manager runs.
#[derive(Clone, Copy, Debug, PartialEq, Eq, Structural)]
pub enum ManagerMode {
    System,
    User,
}

impl ManagerMode {
    /// The scope of the definitions that the manager runs.
    pub open spec fn scope(self) -> ManagerScope {
        match self {
            ManagerMode::System => ManagerScope::System,
            ManagerMode::User => ManagerScope::User,
        }
    }

    /// The scope of the definitions that the manager runs.
    pub fn definition_scope(self) -> (r: ManagerScope)
        ensures
            r == self.scope(),
    {
        match self {
            ManagerMode::System => ManagerScope::System,
            ManagerMode::User => ManagerScope::User,
        }
    }

    /// The mode of the control socket: anyone may ask the system manager, only its owner a
    /// user manager.
    pub fn socket_mode(self) -> (r: u32)
        ensures
            r == if self == ManagerMode::System {
                0o666u32
            } else {
                0o600u32
            },
    {
        match self {
            ManagerMode::System => 0o666,
            ManagerMode::User => 0o600,
        }
    }

    /// The mode of the directory of the control socket.
    pub fn directory_mode(self) -> (r: u32)
        ensures
            r == if self == ManagerMode::System {
                0o755u32
            } else {
                0o700u32
            },
    {
        match self {
            ManagerMode::System => 0o755,
            ManagerMode::User => 0o700,
        }
    }

    /// The user that owns the control socket and may change the manager.
    pub open spec fn owner(self, uid: u32) -> u32 {
        match self {
            ManagerMode::System => 0,
            ManagerMode::User => uid,
        }
    }

    /// The user that owns the control socket and may change the manager: root for the
    /// system manager, the manager's own user else.
    pub fn owner_uid(self, uid: u32) -> (r: u32)
        ensures
            r == self.owner(uid),
    {
        match self {
            ManagerMode::System => 0,
            ManagerMode::User => uid,
        }
    }
}

/// How an ordered shutdown ends.
#[derive(Clone, Copy, Debug, PartialEq, Eq, Structural)]
pub enum ShutdownAction {
    Exit,
    Reboot,
    Poweroff,
}

/// Where the manager's files lie.
#[derive(Debug)]
pub struct ManagerOptions {
    pub mode: ManagerMode,
    pub root: String,
    pub config_home: Option<String>,
    pub runtime_dir: String,
}

/// The manager's document of a manager, or why there is none.
pub open spec fn document_path(options: ManagerOptions) -> Result<Seq<char>, Seq<char>> {
    match options.mode {
        ManagerMode::System => Ok(loader::joined(options.root@, "etc/loom/loom.toml"@)),
        ManagerMode::User => match options.config_home {
            Some(home) => Ok(loader::joined(home@, "loom/loom.toml"@)),
            None => Err("user manager requires config_home"@),
        },
    }
}

impl ManagerOptions {
    /// The options of a system manager below a root.
    pub fn system(root: &str) -> (r: ManagerOptions)
        ensures
            r.mode == ManagerMode::System,
            r.root@ == root@,
            r.config_home is None,
            r.runtime_dir@ == loader::joined(root@, "run"@),
    {
        ManagerOptions {
            mode: ManagerMode::System,
            root: text::owned(root),
            config_home: None,
            runtime_dir: loader::join_path(root, "run"),
        }
    }

    /// The options of a user manager.
    pub fn user(root: &str, config_home: &str, runtime_dir: &str) -> (r: ManagerOptions)
        ensures
            r.mode == ManagerMode::User,
            r.root@ == root@,
            r.config_home matches Some(home) && home@ == config_home@,
            r.runtime_dir@ == runtime_dir@,
    {
        ManagerOptions {
            mode: ManagerMode::User,
            root: text::owned(root),
            config_home: Some(text::owned(config_home)),
            runtime_dir: text::owned(runtime_dir),
        }
    }

    /// The file that holds the manager's document.
    pub fn manager_config_path(&self) -> (r: Result<String, ManagerError>)
        ensures
            match r {
                Ok(path) => document_path(*self) == Ok::<Seq<char>, Seq<char>>(path@),
                Err(e) => match document_path(*self) {
                    Ok(_) => false,
                    Err(reason) => e@ == ManagerErrorModel::InvalidOptions(reason),
                },
            },
    {
        match self.mode {
            ManagerMode::System => Ok(
                ConfigLoader::system_manager_path(self.root.as_str()),
            ),
            ManagerMode::User => match &self.config_home {
                Some(home) => Ok(ConfigLoader::user_manager_path(home.as_str())),
                None => Err(ManagerError::InvalidOptions("user manager requires config_home")),
            },
        }
    }

    /// The directory of the control socket.
    pub fn control_directory(&self) -> (r: String)
        ensures
            r@ == loader::joined(self.runtime_dir@, "loom"@),
    {
        loader::join_path(self.runtime_dir.as_str(), "loom")
    }
}

/// The text from which a user's document is made where a service is enabled and there is
/// none.
pub const NEW_USER_MANAGER: &'static str =
    "schema_version = 1\ndefault_group = \"boot\"\n[groups.boot]\nwants = []\n";

/// What a [`ManagerError`] says.
#[verifier::ext_equal]
pub enum ManagerErrorModel {
    Config(LoadErrorModel),
    Identity(IdentityErrorModel),
    Io { denied: bool, reason: Seq<char> },
    Runtime(RuntimeErrorModel),
    InvalidOptions(Seq<char>),
    InvalidTarget(Seq<char>),
    Edit(EditErrorModel),
}

/// Why the manager refuses or fails.
#[derive(Debug)]
pub enum ManagerError {
    Config(LoadError),
    Identity(IdentityError),
    Io { denied: bool, reason: String },
    Runtime(RuntimeError),
    InvalidOptions(&'static str),
    InvalidTarget(String),
    Edit(EditError),
}

impl View for ManagerError {
    type V = ManagerErrorModel;

    open spec fn view(&self) -> ManagerErrorModel {
        match *self {
            ManagerError::Config(error) => ManagerErrorModel::Config(error@),
            ManagerError::Identity(error) => ManagerErrorModel::Identity(error@),
            ManagerError::Io { denied, reason } => ManagerErrorModel::Io {
                denied,
                reason: reason@,
            },
            ManagerError::Runtime(error) => ManagerErrorModel::Runtime(error@),
            ManagerError::InvalidOptions(reason) => ManagerErrorModel::InvalidOptions(reason@),
            ManagerError::InvalidTarget(target) => ManagerErrorModel::InvalidTarget(target@),
            ManagerError::Edit(error) => ManagerErrorModel::Edit(error@),
        }
    }
}

/// The text of a manager's error.
pub open spec fn manager_error_message(error: ManagerErrorModel) -> Seq<char> {
    match error {
        ManagerErrorModel::Config(error) => loader::load_error_message(error),
        ManagerErrorModel::Identity(error) => identity::identity_error_message(error),
        ManagerErrorModel::Io { reason, .. } => "Linux manager IO failed: "@ + reason,
        ManagerErrorModel::Runtime(error) => "runtime operation failed: "@
            + runtime::runtime_error_message(error),
        ManagerErrorModel::InvalidOptions(reason) => "invalid manager options: "@ + reason,
        ManagerErrorModel::InvalidTarget(target) => "invalid service target "@
            + text::debug_quoted(target),
        ManagerErrorModel::Edit(error) => config_edit::edit_error_message(error),
    }
}

/// The status that answers an error.
pub open spec fn status_of_error(error: ManagerErrorModel) -> StatusCode {
    match error {
        ManagerErrorModel::Runtime(RuntimeErrorModel::UnknownTarget(_)) => StatusCode::NotFound,
        ManagerErrorModel::InvalidTarget(_) => StatusCode::NotFound,
        ManagerErrorModel::Runtime(RuntimeErrorModel::ApplyInProgress) => StatusCode::Conflict,
        ManagerErrorModel::Io { denied, .. } => if denied {
            StatusCode::PermissionDenied
        } else {
            StatusCode::Internal
        },
        ManagerErrorModel::Edit(_) => StatusCode::Internal,
        _ => StatusCode::InvalidRequest,
    }
}

impl ManagerError {
    /// The text of the error.
    pub fn message(&self) -> (r: String)
        ensures
            r@ == manager_error_message(self@),
    {
        match self {
            ManagerError::Config(error) => error.message(),
            ManagerError::Identity(error) => error.message(),
            ManagerError::Io { reason, .. } => text::concat2(
                "Linux manager IO failed: ",
                reason.as_str(),
            ),
            ManagerError::Runtime(error) => {
                let inner = error.message();
                text::concat2("runtime operation failed: ", inner.as_str())
            },
            ManagerError::InvalidOptions(reason) => text::concat2(
                "invalid manager options: ",
                reason,
            ),
            ManagerError::InvalidTarget(target) => {
                let quoted = text::debug_text(target.as_str());
                text::concat2("invalid service target ", quoted.as_str())
            },
            ManagerError::Edit(error) => error.message(),
        }
    }

    /// The status that answers the error.
    pub fn status(&self) -> (r: StatusCode)
        ensures
            r == status_of_error(self@),
    {
        match self {
            ManagerError::Runtime(RuntimeError::UnknownTarget(_)) => StatusCode::NotFound,
            ManagerError::InvalidTarget(_) => StatusCode::NotFound,
            ManagerError::Runtime(RuntimeError::ApplyInProgress) => StatusCode::Conflict,
            ManagerError::Io { denied, .. } => if *denied {
                StatusCode::PermissionDenied
            } else {
                StatusCode::Internal
            },
            ManagerError::Edit(_) => StatusCode::Internal,
            _ => StatusCode::InvalidRequest,
        }
    }
}

/// What a mode decides: the definitions that are run, and whose the control socket is: the
/// superuser's for the system manager, and its own user's for another.
pub proof fn mode_law(mode: ManagerMode, uid: u32)
    ensures
        mode.scope() == ManagerScope::System <==> mode == ManagerMode::System,
        mode.scope() == ManagerScope::User <==> mode == ManagerMode::User,
        mode == ManagerMode::System ==> mode.owner(uid) == 0,
        mode == ManagerMode::User ==> mode.owner(uid) == uid,
{
}

/// Where a manager's document lies: below the root for the system manager, and below the
/// configuration directory for another, which has none without.
pub proof fn document_law(options: ManagerOptions)
    ensures
        options.mode == ManagerMode::System ==> document_path(options) == Ok::<Seq<char>, Seq<char>>(
            loader::joined(options.root@, "etc/loom/loom.toml"@),
        ),
        options.mode == ManagerMode::User ==> match options.config_home {
            Some(home) => document_path(options) == Ok::<Seq<char>, Seq<char>>(
                loader::joined(home@, "loom/loom.toml"@),
            ),
            None => document_path(options) is Err,
        },
{
}

/// How errors are answered: a name that is not known, or is none, is not found; a configuration
/// that is being applied conflicts; what the system denies is denied; what else goes wrong
/// with it, or with the editing of a document, is internal; and all else is a request that
/// cannot be served.
pub proof fn error_status_law(error: ManagerErrorModel)
    ensures
        ({
            let status = status_of_error(error);
            let missing = error is InvalidTarget || (error matches ManagerErrorModel::Runtime(e)
                && e is UnknownTarget);
            let busy = error matches ManagerErrorModel::Runtime(e) && e is ApplyInProgress;
            let denied = error matches ManagerErrorModel::Io { denied, .. } && denied;
            let broken = error is Edit || (error matches ManagerErrorModel::Io { denied, .. }
                && !denied);
            &&& status == StatusCode::NotFound <==> missing
            &&& status == StatusCode::Conflict <==> busy
            &&& status == StatusCode::PermissionDenied <==> denied
            &&& status == StatusCode::Internal <==> broken
            &&& status == StatusCode::InvalidRequest <==> !missing && !busy && !denied && !broken
        }),
{
}

} // verus!
