//! Configuration snapshots: one validated set of services and groups.

use vstd::prelude::*;

use crate::catalog;
use crate::catalog::{
    Catalog, CatalogModel, ConfigWarning, GroupDefinition, GroupModel, WarningModel,
};
use crate::graph;
use crate::model;
use crate::model::{
    ConfigError, Dependencies, ErrorModel, ManagerScope, RawDependencies, RawServiceDefinition,
    ServiceDefinition, ServiceId, ServiceModel,
};
use crate::text;

verus! {

/// The largest number of services that may be starting at once.
pub const MAX_STARTING_HARD_LIMIT: usize = 4096;

/// The values of the manager's document, before any check.
#[derive(Debug)]
pub struct RawManagerConfig {
    pub schema_version: u32,
    pub default_group: String,
    pub shutdown_group: Option<String>,
    pub max_starting: usize,
    pub rescue_command: Option<Vec<String>>,
    pub groups: Vec<(String, RawDependencies)>,
}

impl RawManagerConfig {
    /// The document of the current schema in which only the default group is named.
    pub fn new(default_group: &str) -> (r: RawManagerConfig)
        ensures
            r.schema_version == model::SCHEMA_VERSION,
            r.default_group@ == default_group@,
            r.shutdown_group is None,
            r.max_starting == MAX_STARTING_HARD_LIMIT,
            r.rescue_command is None,
            r.groups@.len() == 0,
    {
        RawManagerConfig {
            schema_version: model::SCHEMA_VERSION,
            default_group: text::owned(default_group),
            shutdown_group: None,
            max_starting: MAX_STARTING_HARD_LIMIT,
            rescue_command: None,
            groups: Vec::new(),
        }
    }
}

/// What a [`ConfigSnapshot`] holds.
#[verifier::ext_equal]
pub struct SnapshotModel {
    pub catalog: CatalogModel,
    pub default_group: Seq<char>,
    pub shutdown_group: Option<Seq<char>>,
    pub max_starting: usize,
    pub rescue_command: Seq<Seq<char>>,
    pub warnings: Seq<WarningModel>,
}

impl SnapshotModel {
    /// What every accepted configuration has: names in order and unambiguous, every
    /// strict target, an order of starting without circles, groups without conflicts,
    /// a default group, a bound on parallel starts, and a usable rescue command.
    pub open spec fn valid(self) -> bool {
        let c = self.catalog;
        &&& c.ordered()
        &&& catalog::references_hold(c)
        &&& graph::acyclic(c.len(), c.ordering())
        &&& catalog::conflict_free(c)
        &&& catalog::group_ids(c.groups).contains(self.default_group)
        &&& 1 <= self.max_starting <= MAX_STARTING_HARD_LIMIT
        &&& model::command_error("rescue_command"@, self.rescue_command) is None
    }
}

/// The groups with one of them put in its place, or in place of an earlier one of
/// the same name.
pub open spec fn put_group(list: Seq<GroupModel>, group: GroupModel) -> Seq<GroupModel> {
    let p = catalog::insertion_point(catalog::group_ids(list), group.id);
    if p < list.len() && list[p].id == group.id {
        list.update(p, group)
    } else {
        list.insert(p, group)
    }
}

/// The first `n` groups of a document, or why they are refused.
pub open spec fn groups_result(raw: Seq<(String, RawDependencies)>, n: nat) -> Result<
    Seq<GroupModel>,
    ErrorModel,
>
    decreases n,
{
    if n == 0 {
        Ok(Seq::empty())
    } else {
        match groups_result(raw, (n - 1) as nat) {
            Err(e) => Err(e),
            Ok(list) => {
                let name = raw[n - 1].0@;
                if !model::valid_identifier(name) {
                    Err(ErrorModel::InvalidServiceId(name))
                } else {
                    match model::raw_dependencies_result(raw[n - 1].1, name) {
                        Err(e) => Err(e),
                        Ok(dependencies) => Ok(
                            put_group(list, GroupModel { id: name, dependencies }),
                        ),
                    }
                }
            },
        }
    }
}

/// What reading a definition file produced: its values, or the reader's message.
pub type Source = (ServiceId, Result<RawServiceDefinition, String>);

/// The first `n` services, or why they are refused.
pub open spec fn services_result(sources: Seq<Source>, scope: ManagerScope, n: nat) -> Result<
    Seq<ServiceModel>,
    ErrorModel,
>
    decreases n,
{
    if n == 0 {
        Ok(Seq::empty())
    } else {
        match services_result(sources, scope, (n - 1) as nat) {
            Err(e) => Err(e),
            Ok(list) => {
                let id = sources[n - 1].0@;
                match model::parse_result(id, sources[n - 1].1, scope) {
                    Err(e) => Err(e),
                    Ok(service) => if catalog::service_ids(list).contains(id) {
                        Err(ErrorModel::DuplicateDefinition(id))
                    } else {
                        Ok(catalog::with_service(list, service))
                    },
                }
            },
        }
    }
}

/// The first name among the first `n` services that a group has too.
pub open spec fn ambiguous_name(c: CatalogModel, n: nat) -> Option<Seq<char>>
    decreases n,
{
    if n == 0 {
        None
    } else {
        match ambiguous_name(c, (n - 1) as nat) {
            Some(id) => Some(id),
            None => if catalog::group_ids(c.groups).contains(c.services[n - 1].id) {
                Some(c.services[n - 1].id)
            } else {
                None
            },
        }
    }
}

/// The warnings of a catalog, or why it is refused: an ambiguous name, a missing
/// target, a circle in the order of starting, a conflict within a group.
pub open spec fn catalog_result(c: CatalogModel) -> Result<Seq<WarningModel>, ErrorModel> {
    match ambiguous_name(c, c.services.len()) {
        Some(id) => Err(ErrorModel::AmbiguousDefinition(id)),
        None => match catalog::references_result(c, c.len()) {
            Err(e) => Err(e),
            Ok(warnings) => match catalog::ordering_error(c) {
                Some(e) => Err(e),
                None => match catalog::conflict_error(c, c.groups.len()) {
                    Some(e) => Err(e),
                    None => Ok(warnings),
                },
            },
        },
    }
}

/// The rescue command of a document; a shell where none is given.
pub open spec fn rescue_command(raw: RawManagerConfig) -> Seq<Seq<char>> {
    match raw.rescue_command {
        Some(command) => text::texts(command@),
        None => seq!["/bin/sh"@],
    }
}

/// Why a named group is refused: it is no identifier.
pub open spec fn group_name_error(name: Option<String>) -> Option<ErrorModel> {
    match name {
        Some(s) => if model::valid_identifier(s@) {
            None
        } else {
            Some(ErrorModel::InvalidServiceId(s@))
        },
        None => None,
    }
}

/// Why the values of the manager's document are refused, apart from its groups.
pub open spec fn manager_error(raw: RawManagerConfig) -> Option<ErrorModel> {
    if model::schema_error(raw.schema_version) is Some {
        model::schema_error(raw.schema_version)
    } else if raw.max_starting == 0 || raw.max_starting > MAX_STARTING_HARD_LIMIT {
        Some(model::field_error("max_starting"@, "must be between 1 and 4096"@))
    } else if !model::valid_identifier(raw.default_group@) {
        Some(ErrorModel::InvalidServiceId(raw.default_group@))
    } else if group_name_error(raw.shutdown_group) is Some {
        group_name_error(raw.shutdown_group)
    } else {
        model::command_error("rescue_command"@, rescue_command(raw))
    }
}

/// The snapshot that a manager's document and definition files describe, or why
/// they are refused.
pub open spec fn build_result(
    document: Result<RawManagerConfig, String>,
    sources: Seq<Source>,
    scope: ManagerScope,
) -> Result<SnapshotModel, ErrorModel> {
    match document {
        Err(message) => Err(ErrorModel::Toml(message@)),
        Ok(raw) => if manager_error(raw) is Some {
            Err(manager_error(raw)->0)
        } else {
            match groups_result(raw.groups@, raw.groups@.len()) {
                Err(e) => Err(e),
                Ok(groups) => if !catalog::group_ids(groups).contains(raw.default_group@) {
                    Err(ErrorModel::MissingDefaultGroup(raw.default_group@))
                } else {
                    match services_result(sources, scope, sources.len()) {
                        Err(e) => Err(e),
                        Ok(services) => {
                            let c = CatalogModel { services, groups };
                            match catalog_result(c) {
                                Err(e) => Err(e),
                                Ok(warnings) => Ok(
                                    SnapshotModel {
                                        catalog: c,
                                        default_group: raw.default_group@,
                                        shutdown_group: text::optional_text(raw.shutdown_group),
                                        max_starting: raw.max_starting,
                                        rescue_command: rescue_command(raw),
                                        warnings,
                                    },
                                ),
                            }
                        },
                    }
                },
            }
        },
    }
}

/// One validated set of services and groups, with the closures of its relations.
#[derive(Debug, PartialEq, Eq)]
pub struct ConfigSnapshot {
    catalog: Catalog,
    default_group: ServiceId,
    shutdown_group: Option<ServiceId>,
    max_starting: usize,
    rescue_command: Vec<String>,
    warnings: Vec<ConfigWarning>,
    needed: Vec<Vec<usize>>,
    awaited: Vec<Vec<usize>>,
    activated: Vec<Vec<usize>>,
}

impl View for ConfigSnapshot {
    type V = SnapshotModel;

    closed spec fn view(&self) -> SnapshotModel {
        SnapshotModel {
            catalog: self.catalog@,
            default_group: self.default_group@,
            shutdown_group: match self.shutdown_group {
                Some(id) => Some(id@),
                None => None,
            },
            max_starting: self.max_starting,
            rescue_command: text::texts(self.rescue_command@),
            warnings: catalog::warning_models(self.warnings@),
        }
    }
}

fn collect_groups(raw: &Vec<(String, RawDependencies)>) -> (r: Result<
    Vec<GroupDefinition>,
    ConfigError,
>)
    ensures
        match r {
            Ok(list) => {
                let models = catalog::group_models(list@);
                &&& groups_result(raw@, raw@.len()) == Ok::<Seq<GroupModel>, ErrorModel>(models)
                &&& catalog::ascending(catalog::group_ids(models))
                &&& list@.len() <= raw@.len()
            },
            Err(e) => groups_result(raw@, raw@.len()) == Err::<Seq<GroupModel>, ErrorModel>(e@),
        },
{
    let mut list: Vec<GroupDefinition> = Vec::new();
    let mut n: usize = 0;
    proof {
        assert(catalog::group_models(list@) =~= Seq::empty());
    }
    while n < raw.len()
        invariant
            n <= raw@.len(),
            list@.len() <= n,
            groups_result(raw@, n as nat) == Ok::<Seq<GroupModel>, ErrorModel>(
                catalog::group_models(list@),
            ),
            catalog::ascending(catalog::group_ids(catalog::group_models(list@))),
        decreases raw@.len() - n,
    {
        let ghost models = catalog::group_models(list@);
        let ghost ids = catalog::group_ids(models);
        let id = match ServiceId::new(raw[n].0.as_str()) {
            Ok(id) => id,
            Err(e) => {
                proof {
                    groups_result_tail(raw@, n as nat + 1);
                }
                return Err(e);
            },
        };
        let dependencies = match Dependencies::from_raw(&raw[n].1, &id) {
            Ok(dependencies) => dependencies,
            Err(e) => {
                proof {
                    groups_result_tail(raw@, n as nat + 1);
                }
                return Err(e);
            },
        };
        let mut p: usize = 0;
        while p < list.len() && list[p].id.precedes(&id)
            invariant
                p <= list@.len(),
                models == catalog::group_models(list@),
                ids == catalog::group_ids(models),
                forall|k: int| 0 <= k < p ==> text::text_less(#[trigger] ids[k], id@),
            decreases list@.len() - p,
        {
            p = p + 1;
        }
        proof {
            catalog::insertion_point_law(ids, id@, p as int);
        }
        if p < list.len() && list[p].id.same(&id) {
            let ghost group = GroupModel { id: id@, dependencies: dependencies@ };
            list.set(p, GroupDefinition { id, dependencies });
            proof {
                assert(catalog::group_models(list@) =~= models.update(p as int, group));
                assert(catalog::group_ids(catalog::group_models(list@)) =~= ids);
            }
        } else {
            let ghost group = GroupModel { id: id@, dependencies: dependencies@ };
            proof {
                assert(!ids.contains(id@)) by {
                    if ids.contains(id@) {
                        let q = choose|q: int| 0 <= q < ids.len() && ids[q] == id@;
                        text::text_less_irreflexive(id@);
                        assert(q >= p);
                        if q > p {
                            text::text_less_total(ids[p as int], id@);
                            assert(text::text_less(ids[p as int], ids[q]));
                        }
                    }
                }
                catalog::insertion_keeps_order(ids, id@);
            }
            list.insert(p, GroupDefinition { id, dependencies });
            proof {
                assert(catalog::group_models(list@) =~= models.insert(p as int, group));
                assert(catalog::group_ids(catalog::group_models(list@)) =~= ids.insert(
                    p as int,
                    group.id,
                ));
            }
        }
        n = n + 1;
    }
    Ok(list)
}

proof fn groups_result_tail(raw: Seq<(String, RawDependencies)>, n: nat)
    requires
        n <= raw.len(),
        groups_result(raw, n) is Err,
    ensures
        groups_result(raw, raw.len()) == groups_result(raw, n),
    decreases raw.len() - n,
{
    if n < raw.len() {
        groups_result_tail(raw, n + 1);
    }
}

proof fn services_result_tail(sources: Seq<Source>, scope: ManagerScope, n: nat)
    requires
        n <= sources.len(),
        services_result(sources, scope, n) is Err,
    ensures
        services_result(sources, scope, sources.len()) == services_result(sources, scope, n),
    decreases sources.len() - n,
{
    if n < sources.len() {
        services_result_tail(sources, scope, n + 1);
    }
}

fn collect_services(sources: Vec<Source>, scope: ManagerScope) -> (r: Result<
    Vec<ServiceDefinition>,
    ConfigError,
>)
    ensures
        match r {
            Ok(list) => {
                let models = catalog::service_models(list@);
                &&& services_result(sources@, scope, sources@.len()) == Ok::<
                    Seq<ServiceModel>,
                    ErrorModel,
                >(models)
                &&& catalog::ascending(catalog::service_ids(models))
                &&& list@.len() == sources@.len()
            },
            Err(e) => services_result(sources@, scope, sources@.len()) == Err::<
                Seq<ServiceModel>,
                ErrorModel,
            >(e@),
        },
{
    let mut list: Vec<ServiceDefinition> = Vec::new();
    proof {
        assert(catalog::service_models(list@) =~= Seq::empty());
    }
    for source in it: sources
        invariant
            it.seq() == sources@,
            list@.len() == it.index(),
            services_result(sources@, scope, it.index() as nat) == Ok::<Seq<ServiceModel>, ErrorModel>(
                catalog::service_models(list@),
            ),
            catalog::ascending(catalog::service_ids(catalog::service_models(list@))),
    {
        let ghost models = catalog::service_models(list@);
        let ghost ids = catalog::service_ids(models);
        let (id, document) = source;
        let key = id.clone();
        let definition = match ServiceDefinition::parse(id, document, scope) {
            Ok(definition) => definition,
            Err(e) => {
                proof {
                    services_result_tail(sources@, scope, it.index() as nat + 1);
                }
                return Err(e);
            },
        };
        let mut p: usize = 0;
        while p < list.len() && list[p].id.precedes(&key)
            invariant
                p <= list@.len(),
                models == catalog::service_models(list@),
                ids == catalog::service_ids(models),
                forall|k: int| 0 <= k < p ==> text::text_less(#[trigger] ids[k], key@),
            decreases list@.len() - p,
        {
            p = p + 1;
        }
        proof {
            catalog::insertion_point_law(ids, key@, p as int);
        }
        if p < list.len() && list[p].id.same(&key) {
            proof {
                assert(ids[p as int] == key@);
                assert(ids.contains(key@));
                services_result_tail(sources@, scope, it.index() as nat + 1);
            }
            return Err(ConfigError::DuplicateDefinition(key));
        }
        let ghost service = definition@;
        proof {
            assert(!ids.contains(key@)) by {
                if ids.contains(key@) {
                    let q = choose|q: int| 0 <= q < ids.len() && ids[q] == key@;
                    text::text_less_irreflexive(key@);
                    assert(q >= p);
                    if q > p {
                        text::text_less_total(ids[p as int], key@);
                        assert(text::text_less(ids[p as int], ids[q]));
                    }
                }
            }
            catalog::insertion_keeps_order(ids, key@);
            assert(service.id == key@);
        }
        list.insert(p, definition);
        proof {
            assert(catalog::service_models(list@) =~= models.insert(p as int, service));
            assert(catalog::service_ids(catalog::service_models(list@)) =~= ids.insert(
                p as int,
                key@,
            ));
        }
    }
    Ok(list)
}

proof fn ambiguous_name_tail(c: CatalogModel, n: nat)
    requires
        n <= c.services.len(),
        ambiguous_name(c, n) is Some,
    ensures
        ambiguous_name(c, c.services.len()) == ambiguous_name(c, n),
    decreases c.services.len() - n,
{
    if n < c.services.len() {
        ambiguous_name_tail(c, n + 1);
    }
}

proof fn ambiguous_name_none(c: CatalogModel, n: nat)
    requires
        n <= c.services.len(),
        ambiguous_name(c, n) is None,
    ensures
        forall|i: int|
            0 <= i < n ==> !catalog::group_ids(c.groups).contains(
                (#[trigger] c.services[i]).id,
            ),
    decreases n,
{
    if n > 0 {
        ambiguous_name_none(c, (n - 1) as nat);
    }
}

fn check_catalog(nodes: &Catalog) -> (r: Result<Vec<ConfigWarning>, ConfigError>)
    requires
        nodes.sized(),
        catalog::ascending(catalog::service_ids(nodes@.services)),
        catalog::ascending(catalog::group_ids(nodes@.groups)),
    ensures
        match r {
            Ok(warnings) => {
                &&& catalog_result(nodes@) == Ok::<Seq<WarningModel>, ErrorModel>(
                    catalog::warning_models(warnings@),
                )
                &&& nodes@.ordered()
                &&& catalog::references_hold(nodes@)
                &&& graph::acyclic(nodes@.len(), nodes@.ordering())
                &&& catalog::conflict_free(nodes@)
            },
            Err(e) => catalog_result(nodes@) == Err::<Seq<WarningModel>, ErrorModel>(e@),
        },
{
    let mut i: usize = 0;
    while i < nodes.services.len()
        invariant
            i <= nodes@.services.len(),
            ambiguous_name(nodes@, i as nat) is None,
        decreases nodes@.services.len() - i,
    {
        let id = &nodes.services[i].id;
        let ghost names = catalog::group_ids(nodes@.groups);
        proof {
            assert(nodes@.services[i as int].id == id@);
        }
        match nodes.find_group(id) {
            Some(g) => {
                proof {
                    assert(names[g as int] == id@);
                    ambiguous_name_tail(nodes@, i as nat + 1);
                }
                return Err(ConfigError::AmbiguousDefinition(id.clone()));
            },
            None => {
                proof {
                    assert(!names.contains(id@)) by {
                        if names.contains(id@) {
                            let g = choose|g: int| 0 <= g < names.len() && names[g] == id@;
                            assert(nodes@.groups[g].id != id@);
                        }
                    }
                }
            },
        }
        i = i + 1;
    }
    proof {
        ambiguous_name_none(nodes@, nodes@.services.len());
        let names = catalog::group_ids(nodes@.groups);
        assert forall|i: int, j: int|
            0 <= i < nodes@.services.len() && 0 <= j
                < nodes@.groups.len() implies nodes@.services[i].id
            != nodes@.groups[j].id by {
            assert(!names.contains(nodes@.services[i].id));
            assert(names[j] == nodes@.groups[j].id);
        }
    }
    let warnings = match nodes.validate_references() {
        Ok(warnings) => warnings,
        Err(e) => return Err(e),
    };
    if let Err(e) = nodes.validate_ordering() {
        return Err(e);
    }
    if let Err(e) = nodes.validate_conflicts() {
        return Err(e);
    }
    Ok(warnings)
}

fn rescue_command_of(value: Option<Vec<String>>) -> (r: Vec<String>)
    ensures
        text::texts(r@) == (match value {
            Some(command) => text::texts(command@),
            None => seq!["/bin/sh"@],
        }),
{
    match value {
        Some(command) => command,
        None => {
            let mut command: Vec<String> = Vec::new();
            command.push(text::owned("/bin/sh"));
            proof {
                assert(text::texts(command@) =~= seq!["/bin/sh"@]);
            }
            command
        },
    }
}

impl ConfigSnapshot {
    #[verifier::type_invariant]
    spec fn well_formed(self) -> bool {
        &&& self@.valid()
        &&& self.catalog.sized()
        &&& self.needed@.len() == self.catalog@.services.len()
        &&& forall|i: int|
            0 <= i < self.needed@.len() ==> graph::ints(#[trigger] self.needed@[i]@)
                == catalog::needed_services(self.catalog@, i)
        &&& self.awaited@.len() == self.catalog@.services.len()
        &&& forall|i: int|
            0 <= i < self.awaited@.len() ==> graph::ints(#[trigger] self.awaited@[i]@)
                == catalog::awaited_services(self.catalog@, i)
        &&& self.activated@.len() == self.catalog@.len()
        &&& forall|x: int|
            0 <= x < self.activated@.len() ==> graph::ints(#[trigger] self.activated@[x]@)
                == catalog::activated_services(self.catalog@, x)
    }

    /// Builds a snapshot from what reading the manager's document and the definition
    /// files produced. Every check of the values and of the graph is made here.
    pub fn build(
        document: Result<RawManagerConfig, String>,
        sources: Vec<Source>,
        scope: ManagerScope,
    ) -> (r: Result<ConfigSnapshot, ConfigError>)
        requires
            document matches Ok(raw) ==> raw.groups@.len() + sources@.len() <= usize::MAX,
        ensures
            model::outcome(r) == build_result(document, sources@, scope),
            r matches Ok(snapshot) ==> snapshot@.valid(),
    {
        let raw = match document {
            Ok(raw) => raw,
            Err(message) => return Err(ConfigError::Toml(message)),
        };
        let ghost given = raw;
        if let Err(e) = model::require_schema(raw.schema_version) {
            return Err(e);
        }
        if raw.max_starting == 0 || raw.max_starting > MAX_STARTING_HARD_LIMIT {
            return Err(
                ConfigError::InvalidField {
                    field: "max_starting",
                    reason: text::owned("must be between 1 and 4096"),
                },
            );
        }
        let default_group = match ServiceId::new(raw.default_group.as_str()) {
            Ok(id) => id,
            Err(e) => return Err(e),
        };
        let shutdown_group = match &raw.shutdown_group {
            None => None,
            Some(name) => match ServiceId::new(name.as_str()) {
                Ok(id) => Some(id),
                Err(e) => return Err(e),
            },
        };
        let rescue_command = rescue_command_of(raw.rescue_command);
        if let Err(e) = model::validate_command("rescue_command", &rescue_command) {
            return Err(e);
        }
        let groups = match collect_groups(&raw.groups) {
            Ok(groups) => groups,
            Err(e) => return Err(e),
        };
        let ghost names = catalog::group_ids(catalog::group_models(groups@));
        let mut nodes = Catalog { services: Vec::new(), groups };
        match nodes.find_group(&default_group) {
            Some(g) => {
                proof {
                    assert(names[g as int] == default_group@);
                    assert(names.contains(default_group@));
                }
            },
            None => {
                proof {
                    assert(!names.contains(default_group@)) by {
                        if names.contains(default_group@) {
                            let g = choose|g: int|
                                0 <= g < names.len() && names[g] == default_group@;
                            assert(nodes@.groups[g].id != default_group@);
                        }
                    }
                }
                return Err(ConfigError::MissingDefaultGroup(default_group));
            },
        }
        let services = match collect_services(sources, scope) {
            Ok(services) => services,
            Err(e) => return Err(e),
        };
        nodes.services = services;
        proof {
            assert(nodes@ == (CatalogModel {
                services: catalog::service_models(services@),
                groups: catalog::group_models(groups@),
            }));
        }
        let warnings = match check_catalog(&nodes) {
            Ok(warnings) => warnings,
            Err(e) => return Err(e),
        };
        let needed = nodes.needed_table();
        let awaited = nodes.awaited_table();
        let activated = nodes.activation_table();
        Ok(
            ConfigSnapshot {
                catalog: nodes,
                default_group,
                shutdown_group,
                max_starting: raw.max_starting,
                rescue_command,
                warnings,
                needed,
                awaited,
                activated,
            },
        )
    }

    /// The services, in ascending order of their names.
    pub fn services(&self) -> (r: &Vec<ServiceDefinition>)
        ensures
            catalog::service_models(r@) == self@.catalog.services,
            self@.valid(),
    {
        proof {
            use_type_invariant(self);
        }
        &self.catalog.services
    }

    /// The groups, in ascending order of their names.
    pub fn groups(&self) -> (r: &Vec<GroupDefinition>)
        ensures
            catalog::group_models(r@) == self@.catalog.groups,
            self@.valid(),
    {
        proof {
            use_type_invariant(self);
        }
        &self.catalog.groups
    }

    /// The group that is started at boot.
    pub fn default_group(&self) -> (r: &ServiceId)
        ensures
            r@ == self@.default_group,
    {
        &self.default_group
    }

    /// The group that runs before everything is stopped.
    pub fn shutdown_group(&self) -> (r: Option<&ServiceId>)
        ensures
            match r {
                Some(id) => self@.shutdown_group == Some(id@),
                None => self@.shutdown_group is None,
            },
    {
        match &self.shutdown_group {
            Some(id) => Some(id),
            None => None,
        }
    }

    /// The command that runs in rescue mode.
    pub fn rescue_command(&self) -> (r: &Vec<String>)
        ensures
            text::texts(r@) == self@.rescue_command,
    {
        &self.rescue_command
    }

    /// How many services may be starting at once.
    pub fn max_starting(&self) -> (r: usize)
        ensures
            r == self@.max_starting,
            self@.valid(),
    {
        proof {
            use_type_invariant(self);
        }
        self.max_starting
    }

    /// What does not keep the snapshot from being used.
    pub fn warnings(&self) -> (r: &Vec<ConfigWarning>)
        ensures
            catalog::warning_models(r@) == self@.warnings,
    {
        &self.warnings
    }

    /// The position of a service.
    pub fn find_service(&self, id: &ServiceId) -> (r: Option<usize>)
        ensures
            match r {
                Some(i) => i < self@.catalog.services.len() && self@.catalog.services[i as int].id
                    == id@,
                None => !catalog::service_ids(self@.catalog.services).contains(id@),
            },
    {
        let r = self.catalog.find_service(id);
        proof {
            let names = catalog::service_ids(self@.catalog.services);
            if r is None && names.contains(id@) {
                let i = choose|i: int| 0 <= i < names.len() && names[i] == id@;
                assert(self.catalog@.services[i].id != id@);
            }
        }
        r
    }

    /// The service that has a name.
    pub fn service(&self, id: &ServiceId) -> (r: Option<&ServiceDefinition>)
        ensures
            match r {
                Some(service) => service@.id == id@ && self@.catalog.services.contains(service@),
                None => !catalog::service_ids(self@.catalog.services).contains(id@),
            },
    {
        match self.find_service(id) {
            Some(i) => {
                proof {
                    assert(self@.catalog.services[i as int] == self.catalog.services@[i as int]@);
                }
                Some(&self.catalog.services[i])
            },
            None => None,
        }
    }

    /// The node that has a name.
    pub fn find_node(&self, id: &ServiceId) -> (r: Option<usize>)
        ensures
            match r {
                Some(x) => x < self@.catalog.len() && self@.catalog.id(x as int) == id@,
                None => !self@.catalog.contains(id@),
            },
            self@.valid(),
    {
        proof {
            use_type_invariant(self);
        }
        self.catalog.find(id)
    }

    /// What a service or group depends on.
    pub fn dependencies(&self, id: &ServiceId) -> (r: Option<&Dependencies>)
        ensures
            match r {
                Some(d) => self@.catalog.contains(id@) && d@ == self@.catalog.dependencies(
                    self@.catalog.node(id@),
                ),
                None => !self@.catalog.contains(id@),
            },
    {
        match self.find_node(id) {
            Some(x) => {
                let d = self.catalog.dependencies(x);
                proof {
                    let c = self@.catalog;
                    assert(c.id(x as int) == id@);
                    assert(c.contains(id@));
                    catalog::catalog_distinct(c, x as int, c.node(id@));
                }
                Some(d)
            },
            None => None,
        }
    }

    /// The positions of the services that a service needs.
    pub fn needed(&self, service: usize) -> (r: &Vec<usize>)
        requires
            service < self@.catalog.services.len(),
        ensures
            graph::ints(r@) == catalog::needed_services(self@.catalog, service as int),
    {
        proof {
            use_type_invariant(self);
        }
        &self.needed[service]
    }

    /// The positions of the services that a service waits for.
    pub fn awaited(&self, service: usize) -> (r: &Vec<usize>)
        requires
            service < self@.catalog.services.len(),
        ensures
            graph::ints(r@) == catalog::awaited_services(self@.catalog, service as int),
    {
        proof {
            use_type_invariant(self);
        }
        &self.awaited[service]
    }

    /// The positions of the services that activating a node activates.
    pub fn activated(&self, node: usize) -> (r: &Vec<usize>)
        requires
            node < self@.catalog.len(),
        ensures
            graph::ints(r@) == catalog::activated_services(self@.catalog, node as int),
    {
        proof {
            use_type_invariant(self);
        }
        &self.activated[node]
    }
}

/// The names of the services that activating the named node activates.
pub open spec fn activation_ids(c: CatalogModel, root: Seq<char>) -> Option<Seq<Seq<char>>> {
    if c.contains(root) {
        Some(c.ids(catalog::activated_services(c, c.node(root))))
    } else {
        None
    }
}

/// The names of the services that are required for the named node to come up, and those of
/// the others that activating it activates.
pub open spec fn start_ids(c: CatalogModel, root: Seq<char>) -> Option<
    (Seq<Seq<char>>, Seq<Seq<char>>),
> {
    if c.contains(root) {
        let x = c.node(root);
        Some((c.ids(catalog::demanded_services(c, x)), c.ids(catalog::optional_services(c, x))))
    } else {
        None
    }
}

/// What is required activates.
proof fn demanded_activates(c: CatalogModel, x: int, y: int)
    requires
        c.demands(x, y),
    ensures
        c.activates(x, y),
{
    let path = choose|path: Seq<int>| #[trigger]
        graph::is_path(c.len(), c.requirement(), path) && path.first() == x && path.last() == y;
    assert forall|i: int| 0 <= i < path.len() - 1 implies c.activation()(
        #[trigger] path[i],
        path[i + 1],
    ) by {
        assert(c.requirement()(path[i], path[i + 1]));
    }
    assert(graph::is_path(c.len(), c.activation(), path));
}

/// Whether a group lists the name, as required or as wanted.
pub open spec fn listed_by_group(c: CatalogModel, id: Seq<char>) -> bool {
    exists|g: int|
        0 <= g < c.groups.len() && ((#[trigger] c.groups[g]).dependencies.requires.contains(id)
            || c.groups[g].dependencies.wants.contains(id))
}

/// The names of optional identifiers.
pub open spec fn optional_ids(r: Option<Vec<ServiceId>>) -> Option<Seq<Seq<char>>> {
    match r {
        Some(ids) => Some(model::id_texts(ids@)),
        None => None,
    }
}

impl ConfigSnapshot {
    /// The services that activating a service or group activates, in ascending order
    /// of their names: itself, and what is required or wanted, transitively.
    pub fn activation_services(&self, root: &ServiceId) -> (r: Option<Vec<ServiceId>>)
        ensures
            optional_ids(r) == activation_ids(self@.catalog, root@),
    {
        let x = match self.find_node(root) {
            Some(x) => x,
            None => return None,
        };
        let ghost c = self@.catalog;
        proof {
            assert(c.contains(root@));
            catalog::catalog_distinct(c, x as int, c.node(root@));
        }
        let list = self.activated(x);
        let ghost nodes = catalog::activated_services(c, x as int);
        proof {
            graph::selected_law(|j: int| c.activates(x as int, j), c.services.len());
        }
        let mut ids: Vec<ServiceId> = Vec::new();
        let mut k: usize = 0;
        while k < list.len()
            invariant
                c == self@.catalog,
                nodes == graph::ints(list@),
                forall|q: int|
                    0 <= q < nodes.len() ==> 0 <= #[trigger] nodes[q] < c.services.len(),
                k <= list@.len(),
                ids@.len() == k,
                forall|q: int| 0 <= q < k ==> ids@[q]@ == c.id(nodes[q]),
            decreases list@.len() - k,
        {
            proof {
                assert(nodes[k as int] == list@[k as int]);
                assert(c.services[nodes[k as int]] == self.catalog.services@[nodes[k as int]]@);
            }
            ids.push(self.catalog.services[list[k]].id.clone());
            k = k + 1;
        }
        proof {
            assert(model::id_texts(ids@) =~= c.ids(nodes));
        }
        Some(ids)
    }

    /// The services that a start of a service or group is about: those that are required
    /// for it to come up, and the others that it activates, each in ascending order of
    /// their names.
    pub fn start_services(&self, root: &ServiceId) -> (r: Option<(Vec<ServiceId>, Vec<ServiceId>)>)
        ensures
            (match r {
                Some((required, wanted)) => Some(
                    (model::id_texts(required@), model::id_texts(wanted@)),
                ),
                None => None,
            }) == start_ids(self@.catalog, root@),
    {
        let x = match self.find_node(root) {
            Some(x) => x,
            None => return None,
        };
        let ghost c = self@.catalog;
        proof {
            use_type_invariant(self);
            assert(c.contains(root@));
            catalog::catalog_distinct(c, x as int, c.node(root@));
        }
        let marks = self.catalog.demanded_marks(x);
        let list = self.activated(x);
        let ghost nodes = catalog::activated_services(c, x as int);
        let ghost active = |j: int| c.activates(x as int, j);
        let ghost p = |j: int| c.demands(x as int, j);
        let ghost q = |j: int| c.activates(x as int, j) && !c.demands(x as int, j);
        let mut required: Vec<ServiceId> = Vec::new();
        let mut wanted: Vec<ServiceId> = Vec::new();
        let count = self.catalog.services.len();
        let mut k: usize = 0;
        let mut i: usize = 0;
        proof {
            graph::selected_law(active, c.services.len());
            assert(model::id_texts(required@) =~= c.ids(graph::selected(p, 0)));
            assert(model::id_texts(wanted@) =~= c.ids(graph::selected(q, 0)));
        }
        while i < count
            invariant
                c == self@.catalog,
                count == c.services.len(),
                count <= c.len(),
                x < c.len(),
                marks@.len() == c.len(),
                forall|j: int|
                    0 <= j < marks@.len() ==> #[trigger] marks@[j] == c.demands(x as int, j),
                active == (|j: int| c.activates(x as int, j)),
                p == (|j: int| c.demands(x as int, j)),
                q == (|j: int| c.activates(x as int, j) && !c.demands(x as int, j)),
                nodes == catalog::activated_services(c, x as int),
                nodes == graph::ints(list@),
                i <= count,
                k <= list@.len(),
                forall|m: int| 0 <= m < k ==> #[trigger] nodes[m] < i,
                forall|m: int| k <= m < nodes.len() ==> #[trigger] nodes[m] >= i,
                model::id_texts(required@) == c.ids(graph::selected(p, i as nat)),
                model::id_texts(wanted@) == c.ids(graph::selected(q, i as nat)),
            decreases count - i,
        {
            let ghost before = (required@, wanted@);
            proof {
                graph::selected_law(active, c.services.len());
                assert(c.services[i as int] == self.catalog.services@[i as int]@);
                if active(i as int) {
                    let m = choose|m: int| 0 <= m < nodes.len() && nodes[m] == i;
                    assert(m >= k);
                    if m > k {
                        assert(nodes[k as int] < nodes[m]);
                    }
                }
                if k < nodes.len() {
                    assert(active(nodes[k as int]));
                    assert(nodes[k as int] == list@[k as int]);
                }
                if c.demands(x as int, i as int) {
                    demanded_activates(c, x as int, i as int);
                }
            }
            let here = k < list.len() && list[k] == i;
            if marks[i] {
                required.push(self.catalog.services[i].id.clone());
                proof {
                    let chosen = graph::selected(p, i as nat);
                    assert(p(i as int));
                    assert(graph::selected(p, (i + 1) as nat) == chosen.push(i as int));
                    assert(model::id_texts(required@) =~= model::id_texts(before.0).push(
                        c.id(i as int),
                    ));
                    assert(c.ids(chosen.push(i as int)) =~= c.ids(chosen).push(c.id(i as int)));
                }
            } else if here {
                wanted.push(self.catalog.services[i].id.clone());
                proof {
                    let chosen = graph::selected(q, i as nat);
                    assert(q(i as int));
                    assert(graph::selected(q, (i + 1) as nat) == chosen.push(i as int));
                    assert(model::id_texts(wanted@) =~= model::id_texts(before.1).push(
                        c.id(i as int),
                    ));
                    assert(c.ids(chosen.push(i as int)) =~= c.ids(chosen).push(c.id(i as int)));
                }
            }
            proof {
                assert(p(i as int) == marks@[i as int]);
                assert(q(i as int) == (here && !marks@[i as int]));
            }
            if here {
                proof {
                    assert forall|m: int| k < m < nodes.len() implies #[trigger] nodes[m]
                        >= i + 1 by {
                        assert(nodes[k as int] < nodes[m]);
                    }
                }
                k = k + 1;
            }
            i = i + 1;
        }
        Some((required, wanted))
    }

    /// Whether a group lists the name directly.
    pub fn is_enabled(&self, id: &ServiceId) -> (r: bool)
        ensures
            r == listed_by_group(self@.catalog, id@),
    {
        let groups = self.groups();
        let mut g: usize = 0;
        while g < groups.len()
            invariant
                catalog::group_models(groups@) == self@.catalog.groups,
                g <= groups@.len(),
                forall|k: int|
                    0 <= k < g ==> !((#[trigger] self@.catalog.groups[k]).dependencies.requires.contains(
                    id@) || self@.catalog.groups[k].dependencies.wants.contains(id@)),
            decreases groups@.len() - g,
        {
            proof {
                assert(self@.catalog.groups[g as int] == groups@[g as int]@);
            }
            if model::contains_id(&groups[g].dependencies.requires, id) || model::contains_id(
                &groups[g].dependencies.wants,
                id,
            ) {
                return true;
            }
            g = g + 1;
        }
        false
    }
}

impl ConfigSnapshot {
    /// The number of services and groups.
    pub fn node_count(&self) -> (r: usize)
        ensures
            r == self@.catalog.len(),
    {
        proof {
            use_type_invariant(self);
        }
        self.catalog.len()
    }

    /// What a node depends on.
    pub fn node_dependencies(&self, node: usize) -> (r: &Dependencies)
        requires
            node < self@.catalog.len(),
        ensures
            r@ == self@.catalog.dependencies(node as int),
    {
        self.catalog.dependencies(node)
    }

    /// The names of nodes.
    pub fn node_names(&self, nodes: &Vec<usize>) -> (r: Vec<String>)
        requires
            forall|k: int| 0 <= k < nodes@.len() ==> #[trigger] nodes@[k] < self@.catalog.len(),
        ensures
            text::texts(r@) == self@.catalog.ids(graph::ints(nodes@)),
    {
        let mut r: Vec<String> = Vec::new();
        let mut k: usize = 0;
        while k < nodes.len()
            invariant
                forall|q: int|
                    0 <= q < nodes@.len() ==> #[trigger] nodes@[q] < self@.catalog.len(),
                k <= nodes@.len(),
                r@.len() == k,
                forall|q: int|
                    0 <= q < k ==> (#[trigger] r@[q])@ == self@.catalog.id(nodes@[q] as int),
            decreases nodes@.len() - k,
        {
            r.push(self.catalog.id(nodes[k]).to_text());
            k = k + 1;
        }
        proof {
            assert(text::texts(r@) =~= self@.catalog.ids(graph::ints(nodes@)));
        }
        r
    }
}

/// Whether a group of a document is the one that an entry states.
pub open spec fn states_group(entry: (String, RawDependencies), group: GroupModel) -> bool {
    &&& group.id == entry.0@
    &&& group.dependencies.requires == text::texts(entry.1.requires@)
    &&& group.dependencies.wants == text::texts(entry.1.wants@)
    &&& group.dependencies.after == text::texts(entry.1.after@)
    &&& group.dependencies.conflicts == text::texts(entry.1.conflicts@)
}

/// Whether a group comes from one of the first `n` entries.
pub open spec fn stated(raw: Seq<(String, RawDependencies)>, n: nat, group: GroupModel) -> bool {
    exists|k: int| 0 <= k < n && states_group(#[trigger] raw[k], group)
}

/// Whether a group entry is accepted: its name is an identifier, and its dependencies are
/// accepted for it.
pub open spec fn usable_group(entry: (String, RawDependencies)) -> bool {
    model::valid_identifier(entry.0@) && model::raw_dependencies_result(entry.1, entry.0@) is Ok
}

/// What groups a document has: each comes from an entry and is what the entry states, and
/// each entry has a group of its name. A document is refused exactly where an entry is.
pub proof fn groups_law(raw: Seq<(String, RawDependencies)>, n: nat)
    requires
        n <= raw.len(),
    ensures
        groups_result(raw, n) is Ok <==> forall|k: int|
            0 <= k < n ==> usable_group(#[trigger] raw[k]),
        groups_result(raw, n) matches Ok(list) ==> {
            &&& forall|g: int| 0 <= g < list.len() ==> stated(raw, n, #[trigger] list[g])
            &&& forall|k: int|
                0 <= k < n ==> catalog::group_ids(list).contains((#[trigger] raw[k]).0@)
        },
    decreases n,
{
    if n > 0 {
        groups_law(raw, (n - 1) as nat);
        let entry = raw[n - 1];
        model::dependencies_accept_law(entry.1, entry.0@);
        if groups_result(raw, (n - 1) as nat) is Ok && usable_group(entry) {
            let list = groups_result(raw, (n - 1) as nat)->Ok_0;
            let all = groups_result(raw, n)->Ok_0;
            let ids = catalog::group_ids(list);
            let p = catalog::insertion_point(ids, entry.0@);
            catalog::insertion_point_bounds(ids, entry.0@);
            assert(states_group(raw[n - 1], all[p]));
            assert forall|g: int| 0 <= g < all.len() implies stated(raw, n, #[trigger] all[g]) by {
                if g != p {
                    let h = if all.len() == list.len() || g < p {
                        g
                    } else {
                        g - 1
                    };
                    assert(all[g] == list[h]);
                    assert(stated(raw, (n - 1) as nat, list[h]));
                    let k = choose|k: int|
                        0 <= k < n - 1 && states_group(#[trigger] raw[k], list[h]);
                    assert(states_group(raw[k], all[g]));
                }
            }
            assert forall|k: int| 0 <= k < n implies catalog::group_ids(all).contains(
                (#[trigger] raw[k]).0@,
            ) by {
                if k == n - 1 {
                    assert(catalog::group_ids(all)[p] == raw[k].0@);
                } else {
                    assert(ids.contains(raw[k].0@));
                    let h = choose|h: int| 0 <= h < ids.len() && ids[h] == raw[k].0@;
                    let g = if all.len() == list.len() || h < p {
                        h
                    } else {
                        h + 1
                    };
                    if h == p && all.len() == list.len() {
                        assert(catalog::group_ids(all)[p] == raw[k].0@);
                    } else {
                        assert(all[g] == list[h]);
                        assert(catalog::group_ids(all)[g] == raw[k].0@);
                    }
                }
            }
        }
    }
}

/// Whether a definition file describes a service: it could be read, and its values are
/// accepted and are those of the service, under the name of the file.
#[verifier::opaque]
pub open spec fn describes(source: Source, scope: ManagerScope, service: ServiceModel) -> bool {
    source.1 matches Ok(raw) && model::definition_result(source.0@, raw, scope) == Ok::<
        ServiceModel,
        ErrorModel,
    >(service)
}

/// Whether a definition file is accepted.
#[verifier::opaque]
pub open spec fn usable_source(source: Source, scope: ManagerScope) -> bool {
    source.1 matches Ok(raw) && model::definition_result(source.0@, raw, scope) is Ok
}

/// Whether a service is what one of the first `n` definition files describes.
pub open spec fn described(
    sources: Seq<Source>,
    scope: ManagerScope,
    n: nat,
    service: ServiceModel,
) -> bool {
    exists|k: int| 0 <= k < n && #[trigger] describes(sources[k], scope, service)
}

/// Whether no two of the first `n` files have the same name.
pub open spec fn separate(sources: Seq<Source>, n: nat) -> bool {
    forall|j: int, k: int| 0 <= j < k < n ==> sources[j].0@ != sources[k].0@
}

proof fn described_name(source: Source, scope: ManagerScope, service: ServiceModel)
    requires
        describes(source, scope, service),
    ensures
        service.id == source.0@,
        usable_source(source, scope),
{
    reveal(describes);
    reveal(usable_source);
    model::definition_law(source.0@, source.1->Ok_0, scope, service);
}

#[verifier::rlimit(40)]
proof fn services_step(sources: Seq<Source>, scope: ManagerScope, n: nat)
    requires
        0 < n <= sources.len(),
    ensures
        services_result(sources, scope, n) is Ok <==> services_result(
            sources,
            scope,
            (n - 1) as nat,
        ) is Ok && usable_source(sources[n - 1], scope) && !catalog::service_ids(
            services_result(sources, scope, (n - 1) as nat)->Ok_0,
        ).contains(sources[n - 1].0@),
        services_result(sources, scope, n) matches Ok(all) ==> exists|service: ServiceModel|
            describes(sources[n - 1], scope, service) && all
                == #[trigger] catalog::with_service(
                services_result(sources, scope, (n - 1) as nat)->Ok_0,
                service,
            ),
{
    reveal(describes);
    reveal(usable_source);
}

proof fn inserted(list: Seq<ServiceModel>, service: ServiceModel)
    ensures
        catalog::with_service(list, service).len() == list.len() + 1,
        forall|i: int|
            0 <= i < list.len() + 1 ==> #[trigger] catalog::with_service(list, service)[i]
                == service || list.contains(catalog::with_service(list, service)[i]),
        forall|id: Seq<char>|
            catalog::service_ids(list).contains(id) || id == service.id
                ==> #[trigger] catalog::service_ids(catalog::with_service(list, service)).contains(
                id,
            ),
{
    let ids = catalog::service_ids(list);
    let all = catalog::with_service(list, service);
    let p = catalog::insertion_point(ids, service.id);
    catalog::insertion_point_bounds(ids, service.id);
    assert(all[p] == service);
    assert forall|i: int| 0 <= i < list.len() + 1 implies #[trigger] all[i] == service
        || list.contains(all[i]) by {
        if i < p {
            assert(all[i] == list[i]);
        } else if i > p {
            assert(all[i] == list[i - 1]);
        }
    }
    assert forall|id: Seq<char>| ids.contains(id) || id == service.id implies #[trigger]
        catalog::service_ids(all).contains(id) by {
        if id == service.id {
            assert(catalog::service_ids(all)[p] == id);
        } else {
            let h = choose|h: int| 0 <= h < ids.len() && ids[h] == id;
            let i = if h < p {
                h
            } else {
                h + 1
            };
            assert(all[i] == list[h]);
            assert(catalog::service_ids(all)[i] == id);
        }
    }
}

/// Whether the first `n` definition files give what they describe: one service for each file,
/// and no other. They are refused exactly where a file is, or where two have the same name.
pub open spec fn services_hold(
    sources: Seq<Source>,
    scope: ManagerScope,
    n: nat,
    result: Result<Seq<ServiceModel>, ErrorModel>,
) -> bool {
    &&& result is Ok <==> separate(sources, n) && usable_sources(sources, scope, n)
    &&& result matches Ok(list) ==> covers(sources, scope, n, list)
}

/// Whether services are those that the first `n` definition files describe: one for each file,
/// and no other.
pub open spec fn covers(
    sources: Seq<Source>,
    scope: ManagerScope,
    n: nat,
    list: Seq<ServiceModel>,
) -> bool {
    &&& list.len() == n
    &&& forall|i: int| 0 <= i < list.len() ==> described(sources, scope, n, #[trigger] list[i])
    &&& forall|k: int|
        0 <= k < n ==> catalog::service_ids(list).contains((#[trigger] sources[k]).0@)
}

/// Whether each of the first `n` definition files is accepted.
pub open spec fn usable_sources(sources: Seq<Source>, scope: ManagerScope, n: nat) -> bool {
    forall|k: int| 0 <= k < n ==> usable_source(#[trigger] sources[k], scope)
}

proof fn usable_more(sources: Seq<Source>, scope: ManagerScope, n: nat)
    requires
        0 < n <= sources.len(),
    ensures
        usable_sources(sources, scope, n) <==> usable_sources(sources, scope, (n - 1) as nat)
            && usable_source(sources[n - 1], scope),
{
}

/// Whether one of the first `n` files has a name.
pub open spec fn has_name(sources: Seq<Source>, n: nat, id: Seq<char>) -> bool {
    exists|j: int| 0 <= j < n && (#[trigger] sources[j]).0@ == id
}

proof fn separate_more(sources: Seq<Source>, n: nat)
    requires
        0 < n <= sources.len(),
    ensures
        separate(sources, n) <==> separate(sources, (n - 1) as nat) && !has_name(
            sources,
            (n - 1) as nat,
            sources[n - 1].0@,
        ),
{
    if separate(sources, n) && has_name(sources, (n - 1) as nat, sources[n - 1].0@) {
        let j = choose|j: int|
            0 <= j < n - 1 && (#[trigger] sources[j]).0@ == sources[n - 1].0@;
        assert(sources[j].0@ != sources[n - 1].0@);
    }
    if separate(sources, (n - 1) as nat) && !has_name(
        sources,
        (n - 1) as nat,
        sources[n - 1].0@,
    ) {
        assert forall|j: int, k: int| 0 <= j < k < n implies sources[j].0@ != sources[k].0@ by {
            if k == n - 1 {
                assert(sources[j].0@ != sources[n - 1].0@);
            }
        }
    }
}

/// What services the definition files describe: one for each file, and no other. They are
/// refused exactly where a file is, or where two have the same name.
#[verifier::rlimit(40)]
pub proof fn services_law(sources: Seq<Source>, scope: ManagerScope, n: nat)
    requires
        n <= sources.len(),
    ensures
        services_hold(sources, scope, n, services_result(sources, scope, n)),
    decreases n,
{
    if n > 0 {
        services_law(sources, scope, (n - 1) as nat);
        services_step(sources, scope, n);
        services_fold(
            sources,
            scope,
            n,
            services_result(sources, scope, (n - 1) as nat),
            services_result(sources, scope, n),
        );
    } else {
        let none: Result<Seq<ServiceModel>, ErrorModel> = Ok(Seq::empty());
        assert(services_hold(sources, scope, 0, none));
        assert(services_result(sources, scope, 0) == none);
    }
}

#[verifier::rlimit(40)]
proof fn services_fold(
    sources: Seq<Source>,
    scope: ManagerScope,
    n: nat,
    before: Result<Seq<ServiceModel>, ErrorModel>,
    after: Result<Seq<ServiceModel>, ErrorModel>,
)
    requires
        0 < n <= sources.len(),
        services_hold(sources, scope, (n - 1) as nat, before),
        after is Ok <==> before is Ok && usable_source(sources[n - 1], scope)
            && !catalog::service_ids(before->Ok_0).contains(sources[n - 1].0@),
        after matches Ok(all) ==> exists|service: ServiceModel|
            describes(sources[n - 1], scope, service) && all == #[trigger] catalog::with_service(
                before->Ok_0,
                service,
            ),
    ensures
        services_hold(sources, scope, n, after),
{
    usable_more(sources, scope, n);
    separate_more(sources, n);
    if before is Ok {
        services_names(sources, scope, (n - 1) as nat, before->Ok_0, sources[n - 1].0@);
    }
    if after is Ok {
        let list = before->Ok_0;
        let all = after->Ok_0;
        let service = choose|service: ServiceModel|
            describes(sources[n - 1], scope, service) && all == #[trigger] catalog::with_service(
                list,
                service,
            );
        services_grow(sources, scope, n, list, service);
    }
}

proof fn services_names(
    sources: Seq<Source>,
    scope: ManagerScope,
    n: nat,
    list: Seq<ServiceModel>,
    id: Seq<char>,
)
    requires
        covers(sources, scope, n, list),
    ensures
        catalog::service_ids(list).contains(id) <==> has_name(sources, n, id),
{
    let ids = catalog::service_ids(list);
    if ids.contains(id) {
        let i = choose|i: int| 0 <= i < ids.len() && ids[i] == id;
        assert(described(sources, scope, n, list[i]));
        let j = choose|j: int| 0 <= j < n && #[trigger] describes(sources[j], scope, list[i]);
        described_name(sources[j], scope, list[i]);
        assert(sources[j].0@ == id);
    }
}

proof fn services_grow(
    sources: Seq<Source>,
    scope: ManagerScope,
    n: nat,
    list: Seq<ServiceModel>,
    service: ServiceModel,
)
    requires
        0 < n <= sources.len(),
        covers(sources, scope, (n - 1) as nat, list),
        describes(sources[n - 1], scope, service),
    ensures
        covers(sources, scope, n, catalog::with_service(list, service)),
{
    let all = catalog::with_service(list, service);
    inserted(list, service);
    described_name(sources[n - 1], scope, service);
    assert forall|i: int| 0 <= i < n implies described(sources, scope, n, #[trigger] all[i]) by {
        if all[i] != service {
            let h = choose|h: int| 0 <= h < list.len() && list[h] == all[i];
            assert(described(sources, scope, (n - 1) as nat, list[h]));
            let k = choose|k: int|
                0 <= k < n - 1 && #[trigger] describes(sources[k], scope, list[h]);
            assert(describes(sources[k], scope, all[i]));
        }
    }
}

/// Which catalogs are accepted: those in which no service and group share a name, every strict
/// name is known, no order of starting goes round, and no group activates a conflict.
pub proof fn catalog_accept_law(c: CatalogModel)
    requires
        catalog::ascending(catalog::service_ids(c.services)),
        catalog::ascending(catalog::group_ids(c.groups)),
    ensures
        catalog_result(c) is Ok <==> {
            &&& forall|i: int, g: int|
                0 <= i < c.services.len() && 0 <= g < c.groups.len() ==> (
                #[trigger] c.services[i]).id != (#[trigger] c.groups[g]).id
            &&& forall|x: int| 0 <= x < c.len() ==> #[trigger] catalog::strict_known(c, x)
            &&& catalog::ordering_error(c) is None
            &&& forall|g: int, x: int, y: int| !#[trigger] catalog::clash(c, g, x, y)
        },
        catalog_result(c) matches Err(ErrorModel::AmbiguousDefinition(id)) ==> exists|
            i: int,
            g: int,
        |
            0 <= i < c.services.len() && 0 <= g < c.groups.len() && (#[trigger] c.services[i]).id
                == id && (#[trigger] c.groups[g]).id == id,
{
    catalog::reference_law(c, c.len());
    ambiguous_name_law(c, c.services.len());
    if catalog_result(c) is Ok || ambiguous_name(c, c.services.len()) is None {
        if catalog::references_result(c, c.len()) is Ok {
            catalog::accepted_references_hold(c, c.len());
            catalog::conflict_law(c, c.groups.len());
            if catalog::conflict_error(c, c.groups.len()) is None {
                assert forall|g: int, x: int, y: int| !#[trigger] catalog::clash(c, g, x, y) by {
                    if g >= c.groups.len() {
                        assert(!catalog::clash(c, g, x, y));
                    }
                }
            }
        }
    }
}

proof fn ambiguous_name_law(c: CatalogModel, n: nat)
    requires
        n <= c.services.len(),
    ensures
        match ambiguous_name(c, n) {
            None => forall|i: int, g: int|
                0 <= i < n && 0 <= g < c.groups.len() ==> (#[trigger] c.services[i]).id != (
                #[trigger] c.groups[g]).id,
            Some(id) => exists|i: int, g: int|
                0 <= i < n && 0 <= g < c.groups.len() && (#[trigger] c.services[i]).id == id && (
                #[trigger] c.groups[g]).id == id,
        },
    decreases n,
{
    if n > 0 {
        ambiguous_name_law(c, (n - 1) as nat);
        let ids = catalog::group_ids(c.groups);
        assert forall|g: int| 0 <= g < c.groups.len() implies ids.contains(
            (#[trigger] c.groups[g]).id,
        ) by {
            assert(ids[g] == c.groups[g].id);
        }
        if ambiguous_name(c, (n - 1) as nat) is None && ids.contains(c.services[n - 1].id) {
            let g = choose|g: int| 0 <= g < ids.len() && ids[g] == c.services[n - 1].id;
            assert(c.groups[g].id == c.services[n - 1].id);
        }
    }
}

/// What a configuration has: the default group, the group for shutting down, and the bound on
/// parallel starts that the document states, its rescue command or else a shell, a group for
/// each of its entries and a service for each file. The default group is one of the groups,
/// and the bound is between 1 and 4096.
#[verifier::rlimit(40)]
pub proof fn build_law(
    raw: RawManagerConfig,
    sources: Seq<Source>,
    scope: ManagerScope,
    s: SnapshotModel,
)
    requires
        build_result(Ok(raw), sources, scope) == Ok::<SnapshotModel, ErrorModel>(s),
    ensures
        raw.schema_version == 1,
        s.default_group == raw.default_group@,
        exists|g: int| 0 <= g < s.catalog.groups.len() && (#[trigger] s.catalog.groups[g]).id
            == s.default_group,
        match raw.shutdown_group {
            Some(name) => s.shutdown_group == Some(name@),
            None => s.shutdown_group is None,
        },
        s.max_starting == raw.max_starting,
        1 <= s.max_starting <= 4096,
        match raw.rescue_command {
            Some(command) => s.rescue_command == text::texts(command@),
            None => s.rescue_command == seq!["/bin/sh"@],
        },
        model::runnable(s.rescue_command),
        s.catalog.services.len() == sources.len(),
        forall|i: int|
            0 <= i < s.catalog.services.len() ==> described(
                sources,
                scope,
                sources.len(),
                #[trigger] s.catalog.services[i],
            ),
        forall|g: int|
            0 <= g < s.catalog.groups.len() ==> stated(
                raw.groups@,
                raw.groups@.len(),
                #[trigger] s.catalog.groups[g],
            ),
        forall|k: int|
            0 <= k < raw.groups@.len() ==> catalog::group_ids(s.catalog.groups).contains(
                (#[trigger] raw.groups@[k]).0@,
            ),
        catalog_result(s.catalog) == Ok::<Seq<WarningModel>, ErrorModel>(s.warnings),
{
    services_law(sources, scope, sources.len());
    groups_law(raw.groups@, raw.groups@.len());
    model::runnable_law("rescue_command"@, rescue_command(raw));
    let ids = catalog::group_ids(s.catalog.groups);
    let g = choose|g: int| 0 <= g < ids.len() && ids[g] == s.default_group;
    assert(s.catalog.groups[g].id == s.default_group);
}

/// Which documents and files are accepted: a document of the first schema with a bound on
/// parallel starts between 1 and 4096, identifiers for the groups that it names, a rescue
/// command that can be run, group entries that are accepted and the default group among them,
/// with files that are accepted and no two of a name, and which make an accepted catalog.
#[verifier::rlimit(40)]
pub proof fn build_accept_law(raw: RawManagerConfig, sources: Seq<Source>, scope: ManagerScope)
    ensures
        build_result(Ok(raw), sources, scope) is Ok <==> {
            &&& raw.schema_version == 1
            &&& 1 <= raw.max_starting <= 4096
            &&& model::valid_identifier(raw.default_group@)
            &&& raw.shutdown_group matches Some(name) ==> model::valid_identifier(name@)
            &&& raw.rescue_command matches Some(command) ==> model::runnable(
                text::texts(command@),
            )
            &&& forall|k: int|
                0 <= k < raw.groups@.len() ==> usable_group(#[trigger] raw.groups@[k])
            &&& exists|k: int|
                0 <= k < raw.groups@.len() && (#[trigger] raw.groups@[k]).0@ == raw.default_group@
            &&& separate(sources, sources.len())
            &&& forall|k: int|
                0 <= k < sources.len() ==> usable_source(#[trigger] sources[k], scope)
            &&& catalog_result(
                CatalogModel {
                    services: services_result(sources, scope, sources.len())->Ok_0,
                    groups: groups_result(raw.groups@, raw.groups@.len())->Ok_0,
                },
            ) is Ok
        },
        build_result(Err::<RawManagerConfig, String>(raw.default_group), sources, scope) is Err,
{
    services_law(sources, scope, sources.len());
    groups_law(raw.groups@, raw.groups@.len());
    model::runnable_law("rescue_command"@, rescue_command(raw));
    if raw.rescue_command is None {
        reveal_strlit("/bin/sh");
        assert(model::runnable(seq!["/bin/sh"@]));
    }
    if groups_result(raw.groups@, raw.groups@.len()) is Ok {
        let groups = groups_result(raw.groups@, raw.groups@.len())->Ok_0;
        let ids = catalog::group_ids(groups);
        if ids.contains(raw.default_group@) {
            let g = choose|g: int| 0 <= g < ids.len() && ids[g] == raw.default_group@;
            assert(stated(raw.groups@, raw.groups@.len(), groups[g]));
            let k = choose|k: int|
                0 <= k < raw.groups@.len() && states_group(#[trigger] raw.groups@[k], groups[g]);
            assert(raw.groups@[k].0@ == raw.default_group@);
        }
    }
}

/// What activating a name lists: nothing is known of it exactly where neither a service nor a
/// group has it. Otherwise the list has the names of the services that are activated and no
/// others; it falls into those that are required, which come first, and the rest.
pub proof fn activation_list_law(c: CatalogModel, x: int, j: int)
    requires
        c.ordered(),
        0 <= x < c.len(),
        0 <= j < c.services.len(),
    ensures
        activation_ids(c, c.id(x)) matches Some(ids) && (ids.contains(c.services[j].id)
            <==> c.activates(x, j)),
        start_ids(c, c.id(x)) matches Some((first, rest)) && (first.contains(c.services[j].id)
            <==> c.demands(x, j)) && (rest.contains(c.services[j].id) <==> c.activates(x, j)
            && !c.demands(x, j)),
{
    assert(c.contains(c.id(x)));
    catalog::catalog_distinct(c, c.node(c.id(x)), x);
    listing(c, |k: int| c.activates(x, k), j);
    listing(c, |k: int| c.demands(x, k), j);
    listing(c, |k: int| c.activates(x, k) && !c.demands(x, k), j);
}

/// An unknown name activates nothing.
pub proof fn unknown_list_law(c: CatalogModel, id: Seq<char>)
    ensures
        activation_ids(c, id) is None <==> !catalog::known(c, id),
        start_ids(c, id) is None <==> !catalog::known(c, id),
{
    catalog::known_law(c, id);
}

proof fn listing(c: CatalogModel, holds: spec_fn(int) -> bool, j: int)
    requires
        c.ordered(),
        0 <= j < c.services.len(),
    ensures
        c.ids(graph::selected(holds, c.services.len())).contains(c.services[j].id) <==> holds(j),
{
    let nodes = graph::selected(holds, c.services.len());
    let ids = c.ids(nodes);
    graph::selected_law(holds, c.services.len());
    if ids.contains(c.services[j].id) {
        let k = choose|k: int| 0 <= k < ids.len() && ids[k] == c.services[j].id;
        assert(c.id(nodes[k]) == c.id(j));
        catalog::catalog_distinct(c, nodes[k], j);
    }
    if holds(j) {
        let k = choose|k: int| 0 <= k < nodes.len() && nodes[k] == j;
        assert(ids[k] == c.services[j].id);
    }
}

/// What is enabled: a name that a group requires or wants, and nothing else; a group that
/// starts after it or conflicts with it does not enable it.
pub proof fn enabled_law(c: CatalogModel, id: Seq<char>)
    ensures
        listed_by_group(c, id) ==> exists|g: int|
            0 <= g < c.groups.len() && ((#[trigger] c.groups[g]).dependencies.requires.contains(id)
                || c.groups[g].dependencies.wants.contains(id)),
        forall|g: int, k: int|
            0 <= g < c.groups.len() && 0 <= k < c.groups[g].dependencies.requires.len()
                && #[trigger] c.groups[g].dependencies.requires[k] == id ==> listed_by_group(c, id),
        forall|g: int, k: int|
            0 <= g < c.groups.len() && 0 <= k < c.groups[g].dependencies.wants.len()
                && #[trigger] c.groups[g].dependencies.wants[k] == id ==> listed_by_group(c, id),
{
}

} // verus!
