//! Answers as structured reports.

use vstd::prelude::*;

use crate::catalog;
use crate::config;
use crate::critical;
use crate::lifecycle::{EngineModel, PlanModel};
use crate::model;
use crate::model::{DependenciesModel, ServiceId};
use crate::protocol::{Operation, StatusCode};
use crate::query;
use crate::runtime::{ApplyPlan, RuntimeEngine, ServiceStatus};
use crate::text;

verus! {

broadcast use vstd::string::group_string_axioms;

/// The version of the layout of reports.
pub const REPORT_SCHEMA: u32 = 1;

/// The state of one service.
#[derive(Debug)]
pub struct ServiceReport {
    pub name: String,
    pub state: &'static str,
    pub desired: &'static str,
    pub generation: u64,
    pub enabled: bool,
    pub blocked_by: Option<String>,
    pub queued_ms: Option<u64>,
    pub started_ms: Option<u64>,
    pub ready_ms: Option<u64>,
    pub exited_ms: Option<u64>,
}

/// What a [`ServiceReport`] says.
#[verifier::ext_equal]
pub struct ServiceReportModel {
    pub name: Seq<char>,
    pub state: Seq<char>,
    pub desired: Seq<char>,
    pub generation: u64,
    pub enabled: bool,
    pub blocked_by: Option<Seq<char>>,
    pub queued_ms: Option<u64>,
    pub started_ms: Option<u64>,
    pub ready_ms: Option<u64>,
    pub exited_ms: Option<u64>,
}

impl View for ServiceReport {
    type V = ServiceReportModel;

    open spec fn view(&self) -> ServiceReportModel {
        ServiceReportModel {
            name: self.name@,
            state: self.state@,
            desired: self.desired@,
            generation: self.generation,
            enabled: self.enabled,
            blocked_by: text::optional_text(self.blocked_by),
            queued_ms: self.queued_ms,
            started_ms: self.started_ms,
            ready_ms: self.ready_ms,
            exited_ms: self.exited_ms,
        }
    }
}

/// What reports about services say.
pub open spec fn service_models(list: Seq<ServiceReport>) -> Seq<ServiceReportModel> {
    Seq::new(list.len(), |i: int| list[i]@)
}

/// What a service or group depends on.
#[derive(Debug)]
pub struct DependencyReport {
    pub requires: Vec<String>,
    pub wants: Vec<String>,
    pub after: Vec<String>,
    pub conflicts: Vec<String>,
}

impl View for DependencyReport {
    type V = DependenciesModel;

    open spec fn view(&self) -> DependenciesModel {
        DependenciesModel {
            requires: text::texts(self.requires@),
            wants: text::texts(self.wants@),
            after: text::texts(self.after@),
            conflicts: text::texts(self.conflicts@),
        }
    }
}

/// The critical path by names.
#[derive(Debug)]
pub struct CriticalPathReport {
    pub duration_ms: u64,
    pub services: Vec<String>,
}

/// A report.
#[derive(Debug)]
pub struct Report {
    pub schema_version: u32,
    pub status: u16,
    pub message: Option<String>,
    pub mode: Option<&'static str>,
    pub manager_pid: Option<u32>,
    pub rescue_reason: Option<String>,
    pub services: Option<Vec<ServiceReport>>,
    pub dependencies: Option<DependencyReport>,
    pub critical_path: Option<CriticalPathReport>,
    pub plan: Option<ApplyPlan>,
}

/// What a [`Report`] says.
#[verifier::ext_equal]
pub struct ReportModel {
    pub schema_version: u32,
    pub status: u16,
    pub message: Option<Seq<char>>,
    pub mode: Option<Seq<char>>,
    pub manager_pid: Option<u32>,
    pub rescue_reason: Option<Seq<char>>,
    pub services: Option<Seq<ServiceReportModel>>,
    pub dependencies: Option<DependenciesModel>,
    pub critical_path: Option<(u64, Seq<Seq<char>>)>,
    pub plan: Option<PlanModel>,
}

impl View for Report {
    type V = ReportModel;

    open spec fn view(&self) -> ReportModel {
        ReportModel {
            schema_version: self.schema_version,
            status: self.status,
            message: text::optional_text(self.message),
            mode: match self.mode {
                Some(mode) => Some(mode@),
                None => None,
            },
            manager_pid: self.manager_pid,
            rescue_reason: text::optional_text(self.rescue_reason),
            services: match self.services {
                Some(list) => Some(service_models(list@)),
                None => None,
            },
            dependencies: match self.dependencies {
                Some(d) => Some(d@),
                None => None,
            },
            critical_path: match self.critical_path {
                Some(path) => Some((path.duration_ms, text::texts(path.services@))),
                None => None,
            },
            plan: match self.plan {
                Some(plan) => Some(plan@),
                None => None,
            },
        }
    }
}

/// A report that holds only how the request ended.
pub open spec fn bare(status: StatusCode) -> ReportModel {
    ReportModel {
        schema_version: REPORT_SCHEMA,
        status: status.code(),
        message: None,
        mode: None,
        manager_pid: None,
        rescue_reason: None,
        services: None,
        dependencies: None,
        critical_path: None,
        plan: None,
    }
}

impl Report {
    /// A report that holds only how the request ended.
    pub fn new(status: StatusCode) -> (r: Report)
        ensures
            r@ == bare(status),
    {
        Report {
            schema_version: REPORT_SCHEMA,
            status: status.number(),
            message: None,
            mode: None,
            manager_pid: None,
            rescue_reason: None,
            services: None,
            dependencies: None,
            critical_path: None,
            plan: None,
        }
    }

    /// A report of an answer in words.
    pub fn of_message(status: StatusCode, message: String) -> (r: Report)
        ensures
            r@ == (ReportModel { message: Some(message@), ..bare(status) }),
    {
        let mut r = Report::new(status);
        r.message = Some(message);
        r
    }

    /// A report of a plan.
    pub fn of_plan(status: StatusCode, plan: ApplyPlan) -> (r: Report)
        ensures
            r@ == (ReportModel { plan: Some(plan@), ..bare(status) }),
    {
        let mut r = Report::new(status);
        r.plan = Some(plan);
        r
    }
}

/// The report about service `i`.
pub open spec fn service_report(e: EngineModel, i: int) -> ServiceReportModel {
    let id = e.snapshot.catalog.services[i].id;
    let s = e.services[i].status();
    ServiceReportModel {
        name: id,
        state: query::observed_text(s.observed),
        desired: query::desired_text(s.desired),
        generation: s.generation,
        enabled: config::listed_by_group(e.snapshot.catalog, id),
        blocked_by: s.blocked_by,
        queued_ms: s.queued_at_ms,
        started_ms: s.started_at_ms,
        ready_ms: s.ready_at_ms,
        exited_ms: s.exited_at_ms,
    }
}

/// The reports about those of the first `n` services that are asked for.
pub open spec fn service_reports(e: EngineModel, target: Seq<char>, n: nat) -> Seq<
    ServiceReportModel,
>
    decreases n,
{
    if n == 0 {
        Seq::empty()
    } else {
        let before = service_reports(e, target, (n - 1) as nat);
        if query::asked(target, e.snapshot.catalog.services[n - 1].id) {
            before.push(service_report(e, n - 1))
        } else {
            before
        }
    }
}

/// The report that answers a question.
pub open spec fn query_report_model(
    e: EngineModel,
    reason: Option<Seq<char>>,
    manager_pid: u32,
    operation: Operation,
    payload: Seq<u8>,
    status: StatusCode,
) -> ReportModel {
    let target = query::question_target(payload);
    let c = e.snapshot.catalog;
    match operation {
        Operation::Status | Operation::List | Operation::Timings | Operation::IsActive
        | Operation::IsEnabled => {
            let all = target.len() == 0;
            ReportModel {
                services: Some(service_reports(e, target, e.services.len())),
                manager_pid: if all {
                    Some(manager_pid)
                } else {
                    None
                },
                mode: if all {
                    Some(
                        if reason is Some {
                            "rescue"@
                        } else {
                            "running"@
                        },
                    )
                } else {
                    None
                },
                rescue_reason: if all {
                    reason
                } else {
                    None
                },
                ..bare(status)
            }
        },
        Operation::Dependencies => ReportModel {
            dependencies: if model::valid_identifier(target) && c.contains(target) {
                Some(c.dependencies(c.node(target)))
            } else {
                None
            },
            ..bare(status)
        },
        Operation::CriticalPath => {
            let path = critical::critical_path(e);
            ReportModel {
                critical_path: Some((path.duration_ms, query::path_names(c, path))),
                ..bare(status)
            }
        },
        _ => bare(status),
    }
}

fn report_service(engine: &RuntimeEngine, id: &ServiceId, status: &ServiceStatus) -> (r:
    ServiceReport)
    ensures
        r@ == (ServiceReportModel {
            name: id@,
            state: query::observed_text(status@.observed),
            desired: query::desired_text(status@.desired),
            generation: status@.generation,
            enabled: config::listed_by_group(engine@.snapshot.catalog, id@),
            blocked_by: status@.blocked_by,
            queued_ms: status@.queued_at_ms,
            started_ms: status@.started_at_ms,
            ready_ms: status@.ready_at_ms,
            exited_ms: status@.exited_at_ms,
        }),
{
    ServiceReport {
        name: id.to_text(),
        state: query::observed_name(status.observed),
        desired: query::desired_name(status.desired),
        generation: status.generation,
        enabled: engine.snapshot().is_enabled(id),
        blocked_by: match &status.blocked_by {
            Some(blocked) => Some(blocked.to_text()),
            None => None,
        },
        queued_ms: status.queued_at_ms,
        started_ms: status.started_at_ms,
        ready_ms: status.ready_at_ms,
        exited_ms: status.exited_at_ms,
    }
}

fn report_services(engine: &RuntimeEngine, target: &str) -> (r: Vec<ServiceReport>)
    requires
        engine@.consistent(),
    ensures
        service_models(r@) == service_reports(engine@, target@, engine@.services.len()),
{
    let ghost e = engine@;
    let statuses = engine.statuses();
    let all = target.unicode_len() == 0;
    let mut r: Vec<ServiceReport> = Vec::new();
    proof {
        assert(service_models(r@) =~= service_reports(e, target@, 0));
    }
    let mut i: usize = 0;
    while i < statuses.len()
        invariant
            e == engine@,
            statuses@.len() == e.services.len(),
            forall|k: int|
                0 <= k < statuses@.len() ==> (#[trigger] statuses@[k]).0@
                    == e.snapshot.catalog.services[k].id && statuses@[k].1@
                    == e.services[k].status(),
            all == (target@.len() == 0),
            i <= statuses@.len(),
            service_models(r@) == service_reports(e, target@, i as nat),
        decreases statuses@.len() - i,
    {
        let ghost before = r@;
        proof {
            assert(statuses@[i as int].0@ == e.snapshot.catalog.services[i as int].id);
        }
        if all || text::same_text(statuses[i].0.as_str(), target) {
            let report = report_service(engine, &statuses[i].0, &statuses[i].1);
            proof {
                assert(report@ == service_report(e, i as int));
            }
            r.push(report);
            proof {
                assert(service_models(r@) =~= service_models(before).push(
                    service_report(e, i as int),
                ));
            }
        }
        i = i + 1;
    }
    r
}

/// The report that answers a question.
pub fn query_report(
    engine: &RuntimeEngine,
    reason: &Option<String>,
    manager_pid: u32,
    operation: Operation,
    payload: &Vec<u8>,
    status: StatusCode,
) -> (r: Report)
    requires
        engine@.consistent(),
    ensures
        r@ == query_report_model(
            engine@,
            text::optional_text(*reason),
            manager_pid,
            operation,
            payload@,
            status,
        ),
{
    let target = query::target_text(payload);
    let mut report = Report::new(status);
    match operation {
        Operation::Status | Operation::List | Operation::Timings | Operation::IsActive
        | Operation::IsEnabled => {
            report.services = Some(report_services(engine, target.as_str()));
            if target.as_str().unicode_len() == 0 {
                report.manager_pid = Some(manager_pid);
                match reason {
                    Some(reason) => {
                        report.mode = Some("rescue");
                        report.rescue_reason = Some(reason.clone());
                    },
                    None => {
                        report.mode = Some("running");
                    },
                }
            }
        },
        Operation::Dependencies => {
            if let Ok(id) = ServiceId::new(target.as_str()) {
                if let Some(d) = engine.snapshot().dependencies(&id) {
                    report.dependencies = Some(
                        DependencyReport {
                            requires: model::id_strings(&d.requires),
                            wants: model::id_strings(&d.wants),
                            after: model::id_strings(&d.after),
                            conflicts: model::id_strings(&d.conflicts),
                        },
                    );
                }
            }
        },
        Operation::CriticalPath => {
            let (duration_ms, services) = query::critical_names(engine);
            report.critical_path = Some(CriticalPathReport { duration_ms, services });
        },
        _ => {},
    }
    report
}

/// What is reported of a service: its own name, state, wish, attempt and times, whether it is
/// enabled, and what holds it up.
pub proof fn service_report_law(e: EngineModel, i: int)
    requires
        0 <= i < e.services.len(),
    ensures
        ({
            let report = service_report(e, i);
            let r = e.services[i];
            &&& report.name == e.snapshot.catalog.services[i].id
            &&& report.state == query::observed_text(r.observed)
            &&& report.desired == query::desired_text(r.desired)
            &&& report.generation == r.generation
            &&& report.enabled <==> config::listed_by_group(e.snapshot.catalog, report.name)
            &&& report.blocked_by == r.blocked_by
            &&& report.queued_ms == r.queued_at_ms
            &&& report.started_ms is None <==> r.generation == 0
            &&& report.started_ms matches Some(t) ==> t == r.started_at_ms
            &&& report.ready_ms == r.ready_at_ms
            &&& report.exited_ms == r.exited_at_ms
        }),
{
}

proof fn service_reports_law(e: EngineModel, target: Seq<char>, n: nat, i: int)
    ensures
        0 <= i < n && (target.len() == 0 || e.snapshot.catalog.services[i].id == target)
            ==> service_reports(e, target, n).contains(service_report(e, i)),
        forall|k: int|
            0 <= k < service_reports(e, target, n).len() ==> tells_of(
                e,
                target,
                n,
                #[trigger] service_reports(e, target, n)[k],
            ),
    decreases n,
{
    if n > 0 {
        service_reports_law(e, target, (n - 1) as nat, i);
        let before = service_reports(e, target, (n - 1) as nat);
        let all = service_reports(e, target, n);
        if before.contains(service_report(e, i)) {
            let k = choose|k: int| 0 <= k < before.len() && before[k] == service_report(e, i);
            assert(all[k] == service_report(e, i));
        }
        if i == n - 1 && (target.len() == 0 || e.snapshot.catalog.services[i].id == target) {
            assert(all[before.len() as int] == service_report(e, i));
        }
        assert forall|k: int| 0 <= k < all.len() implies tells_of(e, target, n, #[trigger] all[k]) by {
            if k < before.len() {
                assert(all[k] == before[k]);
                assert(tells_of(e, target, (n - 1) as nat, before[k]));
                let j = choose|j: int|
                    0 <= j < n - 1 && before[k] == #[trigger] service_report(e, j) && (target.len()
                        == 0 || e.snapshot.catalog.services[j].id == target);
                assert(all[k] == service_report(e, j));
            } else {
                assert(all[k] == service_report(e, n - 1));
            }
        }
    }
}

/// Whether a report is that of one of the first `n` services, which is asked for.
pub open spec fn tells_of(
    e: EngineModel,
    target: Seq<char>,
    n: nat,
    report: ServiceReportModel,
) -> bool {
    exists|j: int|
        0 <= j < n && report == #[trigger] service_report(e, j) && (target.len() == 0
            || e.snapshot.catalog.services[j].id == target)
}

/// What a question is answered as a report: with the status that it has in words. A question
/// after states, times or one service has the reports of the services that are asked for, and
/// where all are, who the manager is and whether it is in rescue, with the reason. Only the
/// question after dependencies has these, where the name is known, and only that after the
/// critical path has it. None has a plan or a message.
pub proof fn query_report_law(
    e: EngineModel,
    reason: Option<Seq<char>>,
    manager_pid: u32,
    operation: Operation,
    payload: Seq<u8>,
    status: StatusCode,
    i: int,
)
    requires
        0 <= i < e.services.len(),
    ensures
        ({
            let report = query_report_model(e, reason, manager_pid, operation, payload, status);
            let target = query::question_target(payload);
            let c = e.snapshot.catalog;
            let listing = operation == Operation::Status || operation == Operation::List
                || operation == Operation::Timings || operation == Operation::IsActive || operation
                == Operation::IsEnabled;
            &&& report.schema_version == 1
            &&& report.status == status.code()
            &&& report.plan is None
            &&& report.message is None
            &&& report.services is Some <==> listing
            &&& report.manager_pid is Some <==> listing && target.len() == 0
            &&& report.mode is Some <==> listing && target.len() == 0
            &&& report.manager_pid matches Some(pid) ==> pid == manager_pid
            &&& report.mode matches Some(mode) ==> mode == if reason is Some {
                "rescue"@
            } else {
                "running"@
            }
            &&& report.rescue_reason == if listing && target.len() == 0 {
                reason
            } else {
                None::<Seq<char>>
            }
            &&& report.services matches Some(list) ==> {
                &&& (target.len() == 0 || c.services[i].id == target) ==> list.contains(
                    service_report(e, i),
                )
                &&& forall|k: int|
                    0 <= k < list.len() ==> tells_of(
                        e,
                        target,
                        e.services.len(),
                        #[trigger] list[k],
                    )
            }
            &&& report.dependencies is Some <==> operation == Operation::Dependencies
                && model::valid_identifier(target) && catalog::known(c, target)
            &&& report.dependencies matches Some(d) ==> d == c.dependencies(c.node(target))
            &&& report.critical_path is Some <==> operation == Operation::CriticalPath
            &&& report.critical_path matches Some((duration, names)) ==> duration
                == critical::critical_path(e).duration_ms && names == c.ids(
                critical::critical_path(e).services,
            )
        }),
{
    let target = query::question_target(payload);
    catalog::known_law(e.snapshot.catalog, target);
    service_reports_law(e, target, e.services.len(), i);
}

} // verus!
