//! Where configuration lies, which files are trusted, and how the layers of definition
//! files come together.

use vstd::prelude::*;

use crate::catalog;
use crate::config;
use crate::config::{ConfigSnapshot, RawManagerConfig, SnapshotModel, Source};
use crate::model;
use crate::model::{ConfigError, ErrorModel, ManagerScope};
use crate::text;

verus! {

broadcast use vstd::string::group_string_axioms;

/// The largest configuration file, in bytes.
pub const MAX_CONFIG_BYTES: u64 = 1_048_576;

/// The manager's document of a user who has none.
pub const DEFAULT_USER_MANAGER: &'static str =
    "schema_version = 1\ndefault_group = \"boot\"\n[groups.boot]\n";

/// What a loading error says.
#[verifier::ext_equal]
pub enum LoadErrorModel {
    Inspect { path: Seq<char>, reason: Seq<char> },
    MissingManager(Seq<char>),
    Unsafe { path: Seq<char>, reason: Seq<char> },
    Read { path: Seq<char>, reason: Seq<char> },
    NotUtf8(Seq<char>),
    Config(ErrorModel),
}

/// Why configuration cannot be loaded.
#[derive(Debug)]
pub enum LoadError {
    Inspect { path: String, reason: String },
    MissingManager(String),
    Unsafe { path: String, reason: String },
    Read { path: String, reason: String },
    NotUtf8(String),
    Config(ConfigError),
}

impl View for LoadError {
    type V = LoadErrorModel;

    open spec fn view(&self) -> LoadErrorModel {
        match *self {
            LoadError::Inspect { path, reason } => LoadErrorModel::Inspect {
                path: path@,
                reason: reason@,
            },
            LoadError::MissingManager(path) => LoadErrorModel::MissingManager(path@),
            LoadError::Unsafe { path, reason } => LoadErrorModel::Unsafe {
                path: path@,
                reason: reason@,
            },
            LoadError::Read { path, reason } => LoadErrorModel::Read {
                path: path@,
                reason: reason@,
            },
            LoadError::NotUtf8(path) => LoadErrorModel::NotUtf8(path@),
            LoadError::Config(error) => LoadErrorModel::Config(error@),
        }
    }
}

/// The text of a loading error.
pub open spec fn load_error_message(error: LoadErrorModel) -> Seq<char> {
    match error {
        LoadErrorModel::Inspect { path, reason } => "failed to inspect "@ + path + ": "@ + reason,
        LoadErrorModel::MissingManager(path) => "missing manager configuration "@ + path,
        LoadErrorModel::Unsafe { path, reason } => "unsafe configuration path "@ + path + ": "@
            + reason,
        LoadErrorModel::Read { path, reason } => "failed to read "@ + path + ": "@ + reason,
        LoadErrorModel::NotUtf8(path) => "configuration "@ + path + " is not UTF-8"@,
        LoadErrorModel::Config(error) => model::error_message(error),
    }
}

impl LoadError {
    /// The text of the error.
    pub fn message(&self) -> (r: String)
        ensures
            r@ == load_error_message(self@),
    {
        match self {
            LoadError::Inspect { path, reason } => {
                let mut r = text::concat3("failed to inspect ", path.as_str(), ": ");
                r.append(reason.as_str());
                r
            },
            LoadError::MissingManager(path) => text::concat2(
                "missing manager configuration ",
                path.as_str(),
            ),
            LoadError::Unsafe { path, reason } => {
                let mut r = text::concat3("unsafe configuration path ", path.as_str(), ": ");
                r.append(reason.as_str());
                r
            },
            LoadError::Read { path, reason } => {
                let mut r = text::concat3("failed to read ", path.as_str(), ": ");
                r.append(reason.as_str());
                r
            },
            LoadError::NotUtf8(path) => text::concat3(
                "configuration ",
                path.as_str(),
                " is not UTF-8",
            ),
            LoadError::Config(error) => error.message(),
        }
    }
}

/// A path below another: the second one itself where it is absolute, else both with one
/// slash between them.
pub open spec fn joined(base: Seq<char>, path: Seq<char>) -> Seq<char> {
    if text::begins_with(path, '/') || base.len() == 0 {
        path
    } else if base.last() == '/' {
        base + path
    } else {
        base + "/"@ + path
    }
}

/// A path below another.
pub fn join_path(base: &str, path: &str) -> (r: String)
    ensures
        r@ == joined(base@, path@),
{
    let chars = text::chars_of(base);
    if text::begins_with_char(path, '/') || chars.len() == 0 {
        text::owned(path)
    } else if chars[chars.len() - 1] == '/' {
        text::concat2(base, path)
    } else {
        text::concat3(base, "/", path)
    }
}

/// What is known of a file before it is read.
#[derive(Clone, Copy, Debug, PartialEq, Eq, Structural)]
pub struct FileFacts {
    pub directory: bool,
    pub regular: bool,
    pub uid: u32,
    pub mode: u32,
    pub length: u64,
}

/// The bits of a mode that let the group or others write.
pub const SHARED_WRITE: u32 = 0o022;

/// Why the owner or the mode of a file is not trusted.
pub open spec fn metadata_error(path: Seq<char>, facts: FileFacts, uid: u32) -> Option<
    LoadErrorModel,
> {
    if facts.uid != uid {
        Some(
            LoadErrorModel::Unsafe {
                path,
                reason: "owner UID is "@ + text::decimal(facts.uid as nat) + ", expected "@
                    + text::decimal(uid as nat),
            },
        )
    } else if facts.mode & SHARED_WRITE != 0 {
        Some(
            LoadErrorModel::Unsafe {
                path,
                reason: "must not be writable by group or other"@,
            },
        )
    } else {
        None
    }
}

/// What an optional loading error says.
pub open spec fn refused(r: Result<(), LoadError>) -> Option<LoadErrorModel> {
    match r {
        Ok(_) => None,
        Err(e) => Some(e@),
    }
}

fn validate_metadata(path: &str, facts: &FileFacts, uid: u32) -> (r: Result<(), LoadError>)
    ensures
        refused(r) == metadata_error(path@, *facts, uid),
{
    if facts.uid != uid {
        let found = text::decimal_string(facts.uid as u64);
        let wanted = text::decimal_string(uid as u64);
        let mut reason = text::concat3("owner UID is ", found.as_str(), ", expected ");
        reason.append(wanted.as_str());
        return Err(LoadError::Unsafe { path: text::owned(path), reason });
    }
    if facts.mode & SHARED_WRITE != 0 {
        return Err(
            LoadError::Unsafe {
                path: text::owned(path),
                reason: text::owned("must not be writable by group or other"),
            },
        );
    }
    Ok(())
}

/// Why a directory is not trusted.
pub open spec fn directory_error(path: Seq<char>, facts: FileFacts, uid: u32) -> Option<
    LoadErrorModel,
> {
    if !facts.directory {
        Some(
            LoadErrorModel::Unsafe {
                path,
                reason: "must be a real directory, not a symlink"@,
            },
        )
    } else {
        metadata_error(path, facts, uid)
    }
}

/// Requires a real directory that its owner alone can write.
pub fn validate_directory(path: &str, facts: &FileFacts, uid: u32) -> (r: Result<(), LoadError>)
    ensures
        refused(r) == directory_error(path@, *facts, uid),
{
    if !facts.directory {
        return Err(
            LoadError::Unsafe {
                path: text::owned(path),
                reason: text::owned("must be a real directory, not a symlink"),
            },
        );
    }
    validate_metadata(path, facts, uid)
}

/// The refusal of a file that is too large.
pub open spec fn too_large(path: Seq<char>) -> LoadErrorModel {
    LoadErrorModel::Unsafe { path, reason: "exceeds 1048576 byte limit"@ }
}

fn too_large_error(path: &str) -> (r: LoadError)
    ensures
        r@ == too_large(path@),
{
    LoadError::Unsafe {
        path: text::owned(path),
        reason: text::owned("exceeds 1048576 byte limit"),
    }
}

/// Why a file is not trusted.
pub open spec fn file_error(path: Seq<char>, facts: FileFacts, uid: u32) -> Option<
    LoadErrorModel,
> {
    if !facts.regular {
        Some(LoadErrorModel::Unsafe { path, reason: "must be a regular file"@ })
    } else if metadata_error(path, facts, uid) is Some {
        metadata_error(path, facts, uid)
    } else if facts.length > MAX_CONFIG_BYTES {
        Some(too_large(path))
    } else {
        None
    }
}

/// Requires a regular file of bounded size that its owner alone can write.
pub fn validate_file(path: &str, facts: &FileFacts, uid: u32) -> (r: Result<(), LoadError>)
    ensures
        refused(r) == file_error(path@, *facts, uid),
{
    if !facts.regular {
        return Err(
            LoadError::Unsafe {
                path: text::owned(path),
                reason: text::owned("must be a regular file"),
            },
        );
    }
    if let Err(e) = validate_metadata(path, facts, uid) {
        return Err(e);
    }
    if facts.length > MAX_CONFIG_BYTES {
        return Err(too_large_error(path));
    }
    Ok(())
}

/// The text of a file, or why it is refused.
pub open spec fn source_result(path: Seq<char>, bytes: Seq<u8>) -> Result<
    Seq<char>,
    LoadErrorModel,
> {
    if bytes.len() > MAX_CONFIG_BYTES {
        Err(too_large(path))
    } else {
        match text::utf8(bytes) {
            Some(s) => Ok(s),
            None => Err(LoadErrorModel::NotUtf8(path)),
        }
    }
}

/// The text of a file that was read. The bound on its size is checked again, since a file
/// can grow while it is read.
pub fn source_text(path: &str, bytes: &Vec<u8>) -> (r: Result<String, LoadError>)
    ensures
        match r {
            Ok(s) => source_result(path@, bytes@) == Ok::<Seq<char>, LoadErrorModel>(s@),
            Err(e) => source_result(path@, bytes@) == Err::<Seq<char>, LoadErrorModel>(e@),
        },
{
    if bytes.len() as u64 > MAX_CONFIG_BYTES {
        return Err(too_large_error(path));
    }
    match text::utf8_text(bytes.as_slice()) {
        Some(s) => Ok(s),
        None => Err(LoadError::NotUtf8(text::owned(path))),
    }
}

/// Whether a file of a layer is a definition file: its name has the extension `toml`.
pub open spec fn is_definition(name: Seq<char>) -> bool {
    text::has_suffix(name, ".toml"@) && name.len() > ".toml"@.len()
}

/// Whether a file of a layer is a definition file.
pub fn is_service_file(name: &str) -> (r: bool)
    ensures
        r == is_definition(name@),
{
    match text::strip_suffix(name, ".toml") {
        Some(stem) => stem.as_str().unicode_len() > 0,
        None => false,
    }
}

/// The manager's document, or why there is none: the file's own text, else the fallback.
pub open spec fn manager_result(
    path: Seq<char>,
    found: Option<Seq<char>>,
    fallback: Option<Seq<char>>,
) -> Result<Seq<char>, LoadErrorModel> {
    match found {
        Some(s) => Ok(s),
        None => match fallback {
            Some(s) => Ok(s),
            None => Err(LoadErrorModel::MissingManager(path)),
        },
    }
}

/// The text of the manager's document: that of the file where it exists, else the
/// fallback, where there is one.
pub fn manager_source(path: &str, found: Option<String>, fallback: Option<&'static str>) -> (r:
    Result<String, LoadError>)
    ensures
        ({
            let other = match fallback {
                Some(s) => Some(s@),
                None => None,
            };
            match r {
                Ok(s) => manager_result(path@, text::optional_text(found), other) == Ok::<
                    Seq<char>,
                    LoadErrorModel,
                >(s@),
                Err(e) => manager_result(path@, text::optional_text(found), other) == Err::<
                    Seq<char>,
                    LoadErrorModel,
                >(e@),
            }
        }),
{
    match found {
        Some(s) => Ok(s),
        None => match fallback {
            Some(s) => Ok(text::owned(s)),
            None => Err(LoadError::MissingManager(text::owned(path))),
        },
    }
}

/// One directory of definition files and its owner.
#[derive(Debug, PartialEq, Eq)]
pub struct Layer {
    pub directory: String,
    pub uid: u32,
}

/// The directory and the owner of a layer.
pub open spec fn layer_models(layers: Seq<Layer>) -> Seq<(Seq<char>, u32)> {
    Seq::new(layers.len(), |i: int| (layers[i].directory@, layers[i].uid))
}

/// The names that sources have.
pub open spec fn source_ids(sources: Seq<Source>) -> Seq<Seq<char>> {
    Seq::new(sources.len(), |i: int| sources[i].0@)
}

/// The sources with one more, in place of an earlier one of the same name.
pub open spec fn put_source(sources: Seq<Source>, source: Source) -> Seq<Source> {
    let p = catalog::insertion_point(source_ids(sources), source.0@);
    if p < sources.len() && sources[p].0@ == source.0@ {
        sources.update(p, source)
    } else {
        sources.insert(p, source)
    }
}

/// The first `n` of a list of sources, put one after the other.
pub open spec fn overlaid(base: Seq<Source>, list: Seq<Source>, n: nat) -> Seq<Source>
    decreases n,
{
    if n == 0 {
        base
    } else {
        put_source(overlaid(base, list, (n - 1) as nat), list[n - 1])
    }
}

/// The first `n` layers together: a file of a later layer takes the place of a whole file
/// of the same name.
pub open spec fn layered(layers: Seq<Vec<Source>>, n: nat) -> Seq<Source>
    decreases n,
{
    if n == 0 {
        Seq::empty()
    } else {
        overlaid(layered(layers, (n - 1) as nat), layers[n - 1]@, layers[n - 1]@.len())
    }
}

fn insert_source(sources: &mut Vec<Source>, source: Source)
    ensures
        final(sources)@ == put_source(old(sources)@, source),
{
    let ghost before = sources@;
    let ghost ids = source_ids(before);
    let mut p: usize = 0;
    while p < sources.len() && sources[p].0.precedes(&source.0)
        invariant
            before == sources@,
            ids == source_ids(before),
            p <= sources@.len(),
            forall|k: int| 0 <= k < p ==> text::text_less(#[trigger] ids[k], source.0@),
        decreases sources@.len() - p,
    {
        proof {
            assert(ids[p as int] == sources@[p as int].0@);
        }
        p = p + 1;
    }
    proof {
        if p < sources@.len() {
            assert(ids[p as int] == sources@[p as int].0@);
        }
        catalog::insertion_point_law(ids, source.0@, p as int);
    }
    if p < sources.len() && sources[p].0.same(&source.0) {
        sources.set(p, source);
    } else {
        sources.insert(p, source);
    }
}

fn layer_sources(layers: Vec<Vec<Source>>) -> (r: Vec<Source>)
    ensures
        r@ == layered(layers@, layers@.len()),
{
    let mut r: Vec<Source> = Vec::new();
    for layer in outer: layers
        invariant
            outer.seq() == layers@,
            r@ == layered(layers@, outer.index() as nat),
    {
        let ghost base = r@;
        for source in inner: layer
            invariant
                inner.seq() == layer@,
                r@ == overlaid(base, layer@, inner.index() as nat),
        {
            insert_source(&mut r, source);
        }
    }
    r
}

/// The last place of a name in a list of sources.
pub open spec fn last_place(list: Seq<Source>, id: Seq<char>, n: nat) -> Option<int>
    decreases n,
{
    if n == 0 {
        None
    } else if list[n - 1].0@ == id {
        Some(n - 1)
    } else {
        last_place(list, id, (n - 1) as nat)
    }
}

/// Whether a list of sources holds a source for a name.
pub open spec fn holds_source(sources: Seq<Source>, id: Seq<char>, source: Source) -> bool {
    exists|i: int| 0 <= i < sources.len() && sources[i].0@ == id && #[trigger] sources[i] == source
}

proof fn put_source_law(sources: Seq<Source>, source: Source)
    requires
        catalog::ascending(source_ids(sources)),
    ensures
        catalog::ascending(source_ids(put_source(sources, source))),
        holds_source(put_source(sources, source), source.0@, source),
        forall|id: Seq<char>, s: Source|
            id != source.0@ ==> (#[trigger] holds_source(put_source(sources, source), id, s)
                <==> holds_source(sources, id, s)),
{
    let ids = source_ids(sources);
    let id = source.0@;
    catalog::insertion_point_bounds(ids, id);
    let p = catalog::insertion_point(ids, id);
    let after = put_source(sources, source);
    if p < sources.len() && sources[p].0@ == id {
        assert(source_ids(after) =~= ids);
    } else {
        assert(!ids.contains(id)) by {
            if ids.contains(id) {
                let k = choose|k: int| 0 <= k < ids.len() && ids[k] == id;
                text::text_less_irreflexive(id);
                if k > p {
                    assert(text::text_less(ids[p], ids[k]));
                }
            }
        }
        catalog::insertion_keeps_order(ids, id);
        assert(source_ids(after) =~= ids.insert(p, id));
    }
    assert(after[p] == source);
    assert forall|other: Seq<char>, s: Source| other != id implies (#[trigger] holds_source(
        after,
        other,
        s,
    ) <==> holds_source(sources, other, s)) by {
        if holds_source(after, other, s) {
            let i = choose|i: int|
                0 <= i < after.len() && after[i].0@ == other && #[trigger] after[i] == s;
            if p < sources.len() && sources[p].0@ == id {
                assert(sources[i] == s);
            } else if i < p {
                assert(sources[i] == s);
            } else {
                assert(sources[i - 1] == s);
            }
        }
        if holds_source(sources, other, s) {
            let i = choose|i: int|
                0 <= i < sources.len() && sources[i].0@ == other && #[trigger] sources[i] == s;
            if (p < sources.len() && sources[p].0@ == id) || i < p {
                assert(after[i] == s);
            } else {
                assert(after[i + 1] == s);
            }
        }
    }
}

proof fn overlaid_law(base: Seq<Source>, list: Seq<Source>, n: nat, id: Seq<char>)
    requires
        n <= list.len(),
        catalog::ascending(source_ids(base)),
    ensures
        catalog::ascending(source_ids(overlaid(base, list, n))),
        match last_place(list, id, n) {
            Some(k) => 0 <= k < n && list[k].0@ == id && holds_source(
                overlaid(base, list, n),
                id,
                list[k],
            ),
            None => forall|s: Source| #[trigger]
                holds_source(overlaid(base, list, n), id, s) <==> holds_source(base, id, s),
        },
    decreases n,
{
    if n > 0 {
        overlaid_law(base, list, (n - 1) as nat, id);
        put_source_law(overlaid(base, list, (n - 1) as nat), list[n - 1]);
    }
}

/// The last of the first `n` layers that has a file of a name, and the file's place.
pub open spec fn top_layer(layers: Seq<Vec<Source>>, id: Seq<char>, n: nat) -> Option<(int, int)>
    decreases n,
{
    if n == 0 {
        None
    } else {
        match last_place(layers[n - 1]@, id, layers[n - 1]@.len()) {
            Some(k) => Some((n - 1, k)),
            None => top_layer(layers, id, (n - 1) as nat),
        }
    }
}

/// Layers together are in ascending order of the names, and hold for every name the whole
/// file of the highest layer that has one.
pub proof fn layering_law(layers: Seq<Vec<Source>>, n: nat, id: Seq<char>)
    requires
        n <= layers.len(),
    ensures
        catalog::ascending(source_ids(layered(layers, n))),
        match top_layer(layers, id, n) {
            Some((x, k)) => holds_source(layered(layers, n), id, layers[x]@[k]),
            None => forall|s: Source| !#[trigger] holds_source(layered(layers, n), id, s),
        },
    decreases n,
{
    if n > 0 {
        layering_law(layers, (n - 1) as nat, id);
        overlaid_law(
            layered(layers, (n - 1) as nat),
            layers[n - 1]@,
            layers[n - 1]@.len(),
            id,
        );
    }
}

/// What an outcome of loading holds.
pub open spec fn load_outcome(r: Result<ConfigSnapshot, LoadError>) -> Result<
    SnapshotModel,
    LoadErrorModel,
> {
    match r {
        Ok(snapshot) => Ok(snapshot@),
        Err(e) => Err(e@),
    }
}

/// The configuration that a manager's document and layers of definition files describe,
/// or why they are refused.
pub open spec fn load_result(
    manager: Result<RawManagerConfig, String>,
    layers: Seq<Vec<Source>>,
    scope: ManagerScope,
) -> Result<SnapshotModel, LoadErrorModel> {
    match config::build_result(manager, layered(layers, layers.len()), scope) {
        Ok(snapshot) => Ok(snapshot),
        Err(e) => Err(LoadErrorModel::Config(e)),
    }
}

/// Whether the number of groups and definition files together is a machine number.
pub open spec fn fits(manager: Result<RawManagerConfig, String>, layers: Seq<Vec<Source>>) -> bool {
    manager matches Ok(raw) ==> raw.groups@.len() + layered(layers, layers.len()).len()
        <= usize::MAX
}

/// Brings configuration together.
#[derive(Debug)]
pub struct ConfigLoader;

impl ConfigLoader {
    /// The file that holds the system manager's document.
    pub fn system_manager_path(root: &str) -> (r: String)
        ensures
            r@ == joined(root@, "etc/loom/loom.toml"@),
    {
        join_path(root, "etc/loom/loom.toml")
    }

    /// The file that holds a user manager's document.
    pub fn user_manager_path(config_home: &str) -> (r: String)
        ensures
            r@ == joined(config_home@, "loom/loom.toml"@),
    {
        join_path(config_home, "loom/loom.toml")
    }

    /// The layers of the system manager, the strongest last.
    pub fn system_layers(root: &str) -> (r: Vec<Layer>)
        ensures
            layer_models(r@) == seq![
                (joined(root@, "usr/lib/loom/services"@), 0u32),
                (joined(root@, "etc/loom/services"@), 0u32),
                (joined(root@, "run/loom/services"@), 0u32),
            ],
    {
        let mut r: Vec<Layer> = Vec::new();
        r.push(Layer { directory: join_path(root, "usr/lib/loom/services"), uid: 0 });
        r.push(Layer { directory: join_path(root, "etc/loom/services"), uid: 0 });
        r.push(Layer { directory: join_path(root, "run/loom/services"), uid: 0 });
        proof {
            assert(layer_models(r@) =~= seq![
                (joined(root@, "usr/lib/loom/services"@), 0u32),
                (joined(root@, "etc/loom/services"@), 0u32),
                (joined(root@, "run/loom/services"@), 0u32),
            ]);
        }
        r
    }

    /// The layers of a user manager, the strongest last: the first belongs to the system,
    /// the others to the user.
    pub fn user_layers(system_root: &str, config_home: &str, runtime_dir: &str, uid: u32) -> (r:
        Vec<Layer>)
        ensures
            layer_models(r@) == seq![
                (joined(system_root@, "usr/lib/loom/user/services"@), 0u32),
                (joined(config_home@, "loom/services"@), uid),
                (joined(runtime_dir@, "loom/services"@), uid),
            ],
    {
        let mut r: Vec<Layer> = Vec::new();
        r.push(Layer { directory: join_path(system_root, "usr/lib/loom/user/services"), uid: 0 });
        r.push(Layer { directory: join_path(config_home, "loom/services"), uid });
        r.push(Layer { directory: join_path(runtime_dir, "loom/services"), uid });
        proof {
            assert(layer_models(r@) =~= seq![
                (joined(system_root@, "usr/lib/loom/user/services"@), 0u32),
                (joined(config_home@, "loom/services"@), uid),
                (joined(runtime_dir@, "loom/services"@), uid),
            ]);
        }
        r
    }

    /// The configuration of the system manager, out of what reading its document and its
    /// layers produced.
    pub fn load_system(
        manager: Result<RawManagerConfig, String>,
        layers: Vec<Vec<Source>>,
    ) -> (r: Result<ConfigSnapshot, LoadError>)
        requires
            fits(manager, layers@),
        ensures
            load_outcome(r) == load_result(manager, layers@, ManagerScope::System),
            r matches Ok(snapshot) ==> snapshot@.valid(),
    {
        ConfigLoader::load(manager, layers, ManagerScope::System)
    }

    /// The configuration of a user manager, out of what reading its document and its
    /// layers produced.
    pub fn load_user(manager: Result<RawManagerConfig, String>, layers: Vec<Vec<Source>>) -> (r:
        Result<ConfigSnapshot, LoadError>)
        requires
            fits(manager, layers@),
        ensures
            load_outcome(r) == load_result(manager, layers@, ManagerScope::User),
            r matches Ok(snapshot) ==> snapshot@.valid(),
    {
        ConfigLoader::load(manager, layers, ManagerScope::User)
    }

    fn load(
        manager: Result<RawManagerConfig, String>,
        layers: Vec<Vec<Source>>,
        scope: ManagerScope,
    ) -> (r: Result<ConfigSnapshot, LoadError>)
        requires
            fits(manager, layers@),
        ensures
            load_outcome(r) == load_result(manager, layers@, scope),
            r matches Ok(snapshot) ==> snapshot@.valid(),
    {
        match ConfigSnapshot::build(manager, layer_sources(layers), scope) {
            Ok(snapshot) => Ok(snapshot),
            Err(e) => Err(LoadError::Config(e)),
        }
    }
}

/// How paths are put together: an absolute path stands for itself, and another comes after
/// its base and one slash.
pub proof fn joined_law(base: Seq<char>, path: Seq<char>)
    requires
        path.len() > 0,
    ensures
        path[0] == '/' ==> joined(base, path) == path,
        path[0] != '/' && base.len() == 0 ==> joined(base, path) == path,
        path[0] != '/' && base.len() > 0 && base.last() != '/' ==> joined(base, path) == base + seq![
            '/',
        ] + path,
        path[0] != '/' && base.len() > 0 && base.last() == '/' ==> joined(base, path) == base
            + path,
{
    reveal_strlit("/");
    assert("/"@ =~= seq!['/']);
}

/// Which files are trusted: a regular file of the expected owner, which neither the group nor
/// others can write, of at most a mebibyte. Of a directory the size does not matter. The
/// refusal names the path.
pub proof fn trust_law(path: Seq<char>, facts: FileFacts, uid: u32)
    ensures
        ({
            let safe = facts.uid == uid && facts.mode & 0o020 == 0 && facts.mode & 0o002 == 0;
            &&& file_error(path, facts, uid) is None <==> facts.regular && safe && facts.length
                <= 1_048_576
            &&& directory_error(path, facts, uid) is None <==> facts.directory && safe
            &&& file_error(path, facts, uid) matches Some(e) ==> (e matches LoadErrorModel::Unsafe {
                path: found,
                ..
            } && found == path)
            &&& directory_error(path, facts, uid) matches Some(e) ==> (e
                matches LoadErrorModel::Unsafe { path: found, .. } && found == path)
        }),
{
    let mode = facts.mode;
    assert(mode & 0o022 == 0 <==> mode & 0o020 == 0 && mode & 0o002 == 0) by (bit_vector);
}

/// What a file holds: its text, where its bytes are one and are not too many.
pub proof fn source_law(path: Seq<char>, bytes: Seq<u8>)
    ensures
        match source_result(path, bytes) {
            Ok(source) => bytes.len() <= 1_048_576 && text::utf8(bytes) == Some(source),
            Err(_) => bytes.len() > 1_048_576 || text::utf8(bytes) is None,
        },
        bytes.len() <= 1_048_576 && text::utf8(bytes) is None ==> source_result(path, bytes)
            == Err::<Seq<char>, LoadErrorModel>(LoadErrorModel::NotUtf8(path)),
{
}

/// Which files of a layer are read: those with a name before the extension `toml`.
pub proof fn definition_file_law(stem: Seq<char>, name: Seq<char>)
    ensures
        stem.len() > 0 ==> is_definition(stem + ".toml"@),
        is_definition(name) ==> exists|s: Seq<char>|
            s.len() > 0 && name == #[trigger] (s + ".toml"@),
{
    let end = ".toml"@;
    let whole = stem + end;
    assert(whole.skip(whole.len() - end.len()) =~= end);
    reveal_strlit(".toml");
    if is_definition(name) {
        let s = name.take(name.len() - end.len());
        assert(name =~= s + end);
    }
}

/// Which document a manager has: that of its file, and only without one the fallback; where
/// there is neither, the path is told.
pub proof fn manager_source_law(path: Seq<char>, found: Seq<char>, fallback: Option<Seq<char>>)
    ensures
        manager_result(path, Some(found), fallback) == Ok::<Seq<char>, LoadErrorModel>(found),
        manager_result(path, None, Some(found)) == Ok::<Seq<char>, LoadErrorModel>(found),
        manager_result(path, None, None) == Err::<Seq<char>, LoadErrorModel>(
            LoadErrorModel::MissingManager(path),
        ),
{
}

/// What is loaded: what the document and the files of the layers together describe, and the
/// refusal of these where they are refused.
pub proof fn load_law(
    manager: Result<RawManagerConfig, String>,
    layers: Seq<Vec<Source>>,
    scope: ManagerScope,
)
    ensures
        match (
            load_result(manager, layers, scope),
            config::build_result(manager, layered(layers, layers.len()), scope),
        ) {
            (Ok(loaded), Ok(built)) => loaded == built,
            (Err(e), Err(refusal)) => e == LoadErrorModel::Config(refusal),
            _ => false,
        },
{
}

} // verus!
