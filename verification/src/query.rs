//! Questions about services, and their answers in words and as reports.

use vstd::prelude::*;

use crate::catalog;
use crate::catalog::CatalogModel;
use crate::config;
use crate::critical;
use crate::critical::PathModel;
use crate::lifecycle;
use crate::lifecycle::{EngineModel, RuntimeModel, StatusModel};
use crate::manager::{ManagerError, ManagerErrorModel};
use crate::model;
use crate::model::{Dependencies, DependenciesModel, ServiceId};
use crate::pending;
use crate::protocol::{Operation, StatusCode};
use crate::request;
use crate::runtime::{
    DesiredState, ObservedState, RuntimeEngine, RuntimeError, RuntimeErrorModel,
    ServiceStatus,
};
use crate::text;

verus! {

broadcast use vstd::string::group_string_axioms;

/// The name of what a service is.
pub open spec fn observed_text(state: ObservedState) -> Seq<char> {
    match state {
        ObservedState::Inactive => "inactive"@,
        ObservedState::Starting => "starting"@,
        ObservedState::Active => "active"@,
        ObservedState::Stopping => "stopping"@,
        ObservedState::Failed => "failed"@,
    }
}

/// The name of what a service is.
pub fn observed_name(state: ObservedState) -> (r: &'static str)
    ensures
        r@ == observed_text(state),
{
    match state {
        ObservedState::Inactive => "inactive",
        ObservedState::Starting => "starting",
        ObservedState::Active => "active",
        ObservedState::Stopping => "stopping",
        ObservedState::Failed => "failed",
    }
}

/// The name of what a service is asked to be.
pub open spec fn desired_text(state: DesiredState) -> Seq<char> {
    match state {
        DesiredState::Inactive => "inactive"@,
        DesiredState::Active => "active"@,
    }
}

/// The name of what a service is asked to be.
pub fn desired_name(state: DesiredState) -> (r: &'static str)
    ensures
        r@ == desired_text(state),
{
    match state {
        DesiredState::Inactive => "inactive",
        DesiredState::Active => "active",
    }
}

/// The name that a question is about: none where the payload is no text.
pub open spec fn question_target(payload: Seq<u8>) -> Seq<char> {
    match text::utf8(payload) {
        Some(s) => text::trim(s),
        None => Seq::empty(),
    }
}

/// The name that a question is about.
pub fn target_text(payload: &Vec<u8>) -> (r: String)
    ensures
        r@ == question_target(payload@),
{
    match text::utf8_text(payload.as_slice()) {
        Some(s) => text::trim_string(s.as_str()),
        None => String::new(),
    }
}

/// Whether a service is part of an answer.
pub open spec fn asked(target: Seq<char>, id: Seq<char>) -> bool {
    target.len() == 0 || id == target
}

/// The line of one service: its name, its state, what it is asked to be, the number of its
/// last attempt, and what holds it up.
pub open spec fn status_line(id: Seq<char>, s: StatusModel) -> Seq<char> {
    id + "\t"@ + observed_text(s.observed) + "\t"@ + desired_text(s.desired) + "\t"@
        + text::decimal(s.generation as nat) + (match s.blocked_by {
        Some(blocked) => "\tblocked-by="@ + blocked,
        None => Seq::empty(),
    }) + "\n"@
}

/// The lines of those of the first `n` services that are asked for.
pub open spec fn status_lines(e: EngineModel, target: Seq<char>, n: nat) -> Seq<char>
    decreases n,
{
    if n == 0 {
        Seq::empty()
    } else {
        let id = e.snapshot.catalog.services[n - 1].id;
        let before = status_lines(e, target, (n - 1) as nat);
        if asked(target, id) {
            before + status_line(id, e.services[n - 1].status())
        } else {
            before
        }
    }
}

/// What precedes the lines of all services in rescue.
pub open spec fn rescue_lines(target: Seq<char>, reason: Option<Seq<char>>) -> Seq<char> {
    match reason {
        Some(reason) => if target.len() == 0 {
            "mode=rescue\nreason="@ + reason + "\n"@
        } else {
            Seq::empty()
        },
        None => Seq::empty(),
    }
}

/// The state of services in words.
pub open spec fn status_text(
    e: EngineModel,
    reason: Option<Seq<char>>,
    target: Seq<char>,
) -> Seq<char> {
    rescue_lines(target, reason) + status_lines(e, target, e.services.len())
}

fn status_string(id: &ServiceId, status: &ServiceStatus) -> (r: String)
    ensures
        r@ == status_line(id@, status@),
{
    let number = text::decimal_string(status.generation);
    let blocked = match &status.blocked_by {
        Some(blocked) => text::concat2("\tblocked-by=", blocked.as_str()),
        None => String::new(),
    };
    let mut line = id.to_text();
    line.append("\t");
    line.append(observed_name(status.observed));
    line.append("\t");
    line.append(desired_name(status.desired));
    line.append("\t");
    line.append(number.as_str());
    line.append(blocked.as_str());
    line.append("\n");
    line
}

/// The state of one service or of all, in words; in rescue the reason comes first.
pub fn status_payload(engine: &RuntimeEngine, reason: &Option<String>, payload: &Vec<u8>) -> (r:
    String)
    requires
        engine@.consistent(),
    ensures
        r@ == status_text(engine@, text::optional_text(*reason), question_target(payload@)),
{
    let target = target_text(payload);
    let all = target.as_str().unicode_len() == 0;
    let mut output = String::new();
    if all {
        if let Some(reason) = reason {
            output.append("mode=rescue\nreason=");
            output.append(reason.as_str());
            output.append("\n");
        }
    }
    let ghost head = output@;
    proof {
        assert(head =~= rescue_lines(target@, text::optional_text(*reason)));
    }
    let statuses = engine.statuses();
    proof {
        assert(head + status_lines(engine@, target@, 0) =~= head);
    }
    let mut i: usize = 0;
    while i < statuses.len()
        invariant
            engine@.consistent(),
            statuses@.len() == engine@.services.len(),
            forall|k: int|
                0 <= k < statuses@.len() ==> (#[trigger] statuses@[k]).0@
                    == engine@.snapshot.catalog.services[k].id && statuses@[k].1@
                    == engine@.services[k].status(),
            all == (target@.len() == 0),
            i <= statuses@.len(),
            output@ == head + status_lines(engine@, target@, i as nat),
        decreases statuses@.len() - i,
    {
        proof {
            assert(statuses@[i as int].0@ == engine@.snapshot.catalog.services[i as int].id);
        }
        let ghost before = output@;
        if all || text::same_text(statuses[i].0.as_str(), target.as_str()) {
            let line = status_string(&statuses[i].0, &statuses[i].1);
            output.append(line.as_str());
        }
        proof {
            assert(output@ =~= head + status_lines(engine@, target@, i as nat + 1));
        }
        i = i + 1;
    }
    output
}

/// The earlier of two times, where there are any.
pub open spec fn earlier(a: Option<u64>, b: Option<u64>) -> Option<u64> {
    match (a, b) {
        (Some(x), Some(y)) => if y < x {
            Some(y)
        } else {
            Some(x)
        },
        (Some(x), None) => Some(x),
        (None, y) => y,
    }
}

/// When the first of the first `n` services was queued.
pub open spec fn first_queued(e: EngineModel, n: nat) -> Option<u64>
    decreases n,
{
    if n == 0 {
        None
    } else {
        earlier(first_queued(e, (n - 1) as nat), e.services[n - 1].queued_at_ms)
    }
}

/// The time from which times are counted.
pub open spec fn time_base(e: EngineModel) -> u64 {
    match first_queued(e, e.services.len()) {
        Some(t) => t,
        None => 0,
    }
}

/// A number, or a dash where there is none.
pub open spec fn optional_number(value: Option<u64>) -> Seq<char> {
    match value {
        Some(n) => text::decimal(n as nat),
        None => "-"@,
    }
}

/// A time counted from another, or a dash where there is none.
pub open spec fn relative_time(value: Option<u64>, base: u64) -> Seq<char> {
    match value {
        Some(t) => text::decimal(lifecycle::minus(t, base) as nat),
        None => "-"@,
    }
}

/// How long the last attempt took to become ready.
pub open spec fn startup_ms(s: StatusModel) -> Option<u64> {
    match (s.ready_at_ms, s.started_at_ms) {
        (Some(ready), Some(started)) => Some(lifecycle::minus(ready, started)),
        _ => None,
    }
}

/// The times of one service.
pub open spec fn timing_line(id: Seq<char>, s: StatusModel, base: u64) -> Seq<char> {
    id + "\t"@ + relative_time(s.queued_at_ms, base) + "\t"@ + relative_time(
        s.started_at_ms,
        base,
    ) + "\t"@ + relative_time(s.ready_at_ms, base) + "\t"@ + relative_time(s.exited_at_ms, base)
        + "\t"@ + optional_number(startup_ms(s)) + "\n"@
}

/// The times of the first `n` services.
pub open spec fn timing_lines(e: EngineModel, base: u64, n: nat) -> Seq<char>
    decreases n,
{
    if n == 0 {
        Seq::empty()
    } else {
        timing_lines(e, base, (n - 1) as nat) + timing_line(
            e.snapshot.catalog.services[n - 1].id,
            e.services[n - 1].status(),
            base,
        )
    }
}

/// The times of all services in words, counted from when the first one was queued.
pub open spec fn timings_text(e: EngineModel) -> Seq<char> {
    "service\tqueued_ms\tstarted_ms\tready_ms\texited_ms\tstartup_ms\n"@ + timing_lines(
        e,
        time_base(e),
        e.services.len(),
    )
}

fn minus(a: u64, b: u64) -> (r: u64)
    ensures
        r == lifecycle::minus(a, b),
{
    if a >= b {
        a - b
    } else {
        0
    }
}

fn relative_string(value: Option<u64>, base: u64) -> (r: String)
    ensures
        r@ == relative_time(value, base),
{
    match value {
        Some(t) => text::decimal_string(minus(t, base)),
        None => text::owned("-"),
    }
}

fn optional_string(value: Option<u64>) -> (r: String)
    ensures
        r@ == optional_number(value),
{
    match value {
        Some(n) => text::decimal_string(n),
        None => text::owned("-"),
    }
}

fn timing_string(id: &ServiceId, status: &ServiceStatus, base: u64) -> (r: String)
    ensures
        r@ == timing_line(id@, status@, base),
{
    let startup = match (status.ready_at_ms, status.started_at_ms) {
        (Some(ready), Some(started)) => Some(minus(ready, started)),
        _ => None,
    };
    let queued = relative_string(status.queued_at_ms, base);
    let started = relative_string(status.started_at_ms, base);
    let ready = relative_string(status.ready_at_ms, base);
    let exited = relative_string(status.exited_at_ms, base);
    let took = optional_string(startup);
    let mut line = id.to_text();
    line.append("\t");
    line.append(queued.as_str());
    line.append("\t");
    line.append(started.as_str());
    line.append("\t");
    line.append(ready.as_str());
    line.append("\t");
    line.append(exited.as_str());
    line.append("\t");
    line.append(took.as_str());
    line.append("\n");
    line
}

/// The times of all services, in words.
pub fn timings_payload(engine: &RuntimeEngine) -> (r: String)
    requires
        engine@.consistent(),
    ensures
        r@ == timings_text(engine@),
{
    let ghost e = engine@;
    let statuses = engine.statuses();
    let mut first: Option<u64> = None;
    let mut i: usize = 0;
    while i < statuses.len()
        invariant
            e == engine@,
            statuses@.len() == e.services.len(),
            forall|k: int|
                0 <= k < statuses@.len() ==> (#[trigger] statuses@[k]).1@ == e.services[k].status(),
            i <= statuses@.len(),
            first == first_queued(e, i as nat),
        decreases statuses@.len() - i,
    {
        proof {
            assert(statuses@[i as int].1@ == e.services[i as int].status());
        }
        first = match (first, statuses[i].1.queued_at_ms) {
            (Some(x), Some(y)) => if y < x {
                Some(y)
            } else {
                Some(x)
            },
            (Some(x), None) => Some(x),
            (None, y) => y,
        };
        i = i + 1;
    }
    let base = match first {
        Some(t) => t,
        None => 0,
    };
    let mut output = text::owned(
        "service\tqueued_ms\tstarted_ms\tready_ms\texited_ms\tstartup_ms\n",
    );
    let ghost head = output@;
    proof {
        assert(head + timing_lines(e, base, 0) =~= head);
    }
    i = 0;
    while i < statuses.len()
        invariant
            e == engine@,
            statuses@.len() == e.services.len(),
            forall|k: int|
                0 <= k < statuses@.len() ==> (#[trigger] statuses@[k]).0@
                    == e.snapshot.catalog.services[k].id && statuses@[k].1@
                    == e.services[k].status(),
            i <= statuses@.len(),
            output@ == head + timing_lines(e, base, i as nat),
        decreases statuses@.len() - i,
    {
        proof {
            assert(statuses@[i as int].0@ == e.snapshot.catalog.services[i as int].id);
        }
        let line = timing_string(&statuses[i].0, &statuses[i].1, base);
        output.append(line.as_str());
        proof {
            assert(output@ =~= head + timing_lines(e, base, i as nat + 1));
        }
        i = i + 1;
    }
    output
}

/// The names of services on a path.
pub open spec fn path_names(c: CatalogModel, path: PathModel) -> Seq<Seq<char>> {
    c.ids(path.services)
}

/// A critical path in words.
pub open spec fn path_text(c: CatalogModel, path: PathModel) -> Seq<char> {
    "duration_ms="@ + text::decimal(path.duration_ms as nat) + "\nservices="@ + text::join(
        path_names(c, path),
        " -> "@,
    ) + "\n"@
}

/// How long the critical path took, and the names of the services on it.
pub fn critical_names(engine: &RuntimeEngine) -> (r: (u64, Vec<String>))
    requires
        engine@.consistent(),
    ensures
        r.0 == critical::critical_path(engine@).duration_ms,
        text::texts(r.1@) == path_names(
            engine@.snapshot.catalog,
            critical::critical_path(engine@),
        ),
{
    let path = critical::find_critical_path(engine);
    proof {
        critical::critical_path_bounds(engine@);
        assert(engine@.snapshot.catalog.len() >= engine@.services.len());
        assert forall|k: int| 0 <= k < path.services@.len() implies #[trigger] path.services@[k]
            < engine@.snapshot.catalog.len() by {
            assert(path@.services[k] == path.services@[k]);
        }
    }
    let names = engine.snapshot().node_names(&path.services);
    proof {
        assert(path@.services == crate::graph::ints(path.services@));
    }
    (path.duration_ms, names)
}

/// The critical path, in words.
pub fn critical_path_payload(engine: &RuntimeEngine) -> (r: String)
    requires
        engine@.consistent(),
    ensures
        r@ == path_text(engine@.snapshot.catalog, critical::critical_path(engine@)),
{
    let (duration, names) = critical_names(engine);
    let number = text::decimal_string(duration);
    let joined = text::join_strings(&names, " -> ");
    let mut output = text::concat3("duration_ms=", number.as_str(), "\nservices=");
    output.append(joined.as_str());
    output.append("\n");
    output
}

/// What a service or group depends on, in words.
pub open spec fn dependencies_text(d: DependenciesModel) -> Seq<char> {
    "requires="@ + text::join(d.requires, ","@) + "\nwants="@ + text::join(d.wants, ","@)
        + "\nafter="@ + text::join(d.after, ","@) + "\nconflicts="@ + text::join(d.conflicts, ","@)
        + "\n"@
}

fn join_ids(ids: &Vec<ServiceId>) -> (r: String)
    ensures
        r@ == text::join(model::id_texts(ids@), ","@),
{
    let names = model::id_strings(ids);
    text::join_strings(&names, ",")
}

fn dependencies_payload(d: &Dependencies) -> (r: String)
    ensures
        r@ == dependencies_text(d@),
{
    let first = join_ids(&d.requires);
    let second = join_ids(&d.wants);
    let third = join_ids(&d.after);
    let fourth = join_ids(&d.conflicts);
    let mut output = text::concat3("requires=", first.as_str(), "\nwants=");
    output.append(second.as_str());
    output.append("\nafter=");
    output.append(third.as_str());
    output.append("\nconflicts=");
    output.append(fourth.as_str());
    output.append("\n");
    output
}

/// Whether an operation asks a question.
pub open spec fn is_query(operation: Operation) -> bool {
    operation == Operation::Status || operation == Operation::List || operation
        == Operation::IsActive || operation == Operation::IsEnabled || operation
        == Operation::Dependencies || operation == Operation::Timings || operation
        == Operation::CriticalPath
}

/// The answer to a question in words, or why there is none.
pub open spec fn query_result(
    e: EngineModel,
    reason: Option<Seq<char>>,
    operation: Operation,
    payload: Seq<u8>,
) -> Result<(StatusCode, Seq<char>), ManagerErrorModel> {
    match operation {
        Operation::Status | Operation::List => Ok(
            (StatusCode::Success, status_text(e, reason, question_target(payload))),
        ),
        Operation::Timings => Ok((StatusCode::Success, timings_text(e))),
        Operation::CriticalPath => Ok(
            (
                StatusCode::Success,
                path_text(e.snapshot.catalog, critical::critical_path(e)),
            ),
        ),
        _ => match request::target_result(payload) {
            Err(error) => Err(error),
            Ok(id) => match operation {
                Operation::IsActive => if pending::state_of(e, id) matches Some(r) && r.observed
                    == ObservedState::Active {
                    Ok((StatusCode::Success, "active"@))
                } else {
                    Ok((StatusCode::ServiceFailure, "inactive"@))
                },
                Operation::IsEnabled => if config::listed_by_group(e.snapshot.catalog, id) {
                    Ok((StatusCode::Success, "enabled"@))
                } else {
                    Ok((StatusCode::ServiceFailure, "disabled"@))
                },
                _ => if e.snapshot.catalog.contains(id) {
                    Ok(
                        (
                            StatusCode::Success,
                            dependencies_text(
                                e.snapshot.catalog.dependencies(e.snapshot.catalog.node(id)),
                            ),
                        ),
                    )
                } else {
                    Err(ManagerErrorModel::Runtime(RuntimeErrorModel::UnknownTarget(id)))
                },
            },
        },
    }
}

/// Answers a question in words.
pub fn dispatch_query(
    engine: &RuntimeEngine,
    reason: &Option<String>,
    operation: Operation,
    payload: &Vec<u8>,
) -> (r: Result<(StatusCode, String), ManagerError>)
    requires
        engine@.consistent(),
        is_query(operation),
    ensures
        (match r {
            Ok((status, words)) => Ok::<(StatusCode, Seq<char>), ManagerErrorModel>(
                (status, words@),
            ),
            Err(e) => Err(e@),
        }) == query_result(engine@, text::optional_text(*reason), operation, payload@),
{
    if operation == Operation::Status || operation == Operation::List {
        return Ok((StatusCode::Success, status_payload(engine, reason, payload)));
    }
    if operation == Operation::Timings {
        return Ok((StatusCode::Success, timings_payload(engine)));
    }
    if operation == Operation::CriticalPath {
        return Ok((StatusCode::Success, critical_path_payload(engine)));
    }
    let service = match request::payload_target(payload) {
        Ok(service) => service,
        Err(e) => return Err(e),
    };
    if operation == Operation::IsActive {
        let active = match engine.status(&service) {
            Some(status) => status.observed == ObservedState::Active,
            None => false,
        };
        return if active {
            Ok((StatusCode::Success, text::owned("active")))
        } else {
            Ok((StatusCode::ServiceFailure, text::owned("inactive")))
        };
    }
    if operation == Operation::IsEnabled {
        return if engine.snapshot().is_enabled(&service) {
            Ok((StatusCode::Success, text::owned("enabled")))
        } else {
            Ok((StatusCode::ServiceFailure, text::owned("disabled")))
        };
    }
    match engine.snapshot().dependencies(&service) {
        Some(dependencies) => Ok((StatusCode::Success, dependencies_payload(dependencies))),
        None => Err(ManagerError::Runtime(RuntimeError::UnknownTarget(service))),
    }
}

/// What the words of a state are: each has its own.
pub proof fn state_words_law(state: ObservedState, desired: DesiredState)
    ensures
        state == ObservedState::Inactive ==> observed_text(state) == "inactive"@,
        state == ObservedState::Starting ==> observed_text(state) == "starting"@,
        state == ObservedState::Active ==> observed_text(state) == "active"@,
        state == ObservedState::Stopping ==> observed_text(state) == "stopping"@,
        state == ObservedState::Failed ==> observed_text(state) == "failed"@,
        desired == DesiredState::Active ==> desired_text(desired) == "active"@,
        desired == DesiredState::Inactive ==> desired_text(desired) == "inactive"@,
{
}

/// Which services an answer is about: all of them where no name is asked for, and else the one
/// of that name alone.
pub proof fn asked_law(target: Seq<char>, id: Seq<char>)
    ensures
        asked(Seq::empty(), id),
        target.len() > 0 ==> (asked(target, id) <==> target == id),
{
}

/// Whether a text has another within it.
pub open spec fn has_part(whole: Seq<char>, part: Seq<char>) -> bool {
    exists|before: Seq<char>, after: Seq<char>| whole == #[trigger] (before + part + after)
}

/// What the line of a service tells: its name, its state, what it is asked to be and the number
/// of its last attempt, with tabs between, and at the end what holds it up, where something does.
pub proof fn status_line_law(id: Seq<char>, s: StatusModel)
    ensures
        s.blocked_by is None ==> status_line(id, s) == id + "\t"@ + observed_text(s.observed)
            + "\t"@ + desired_text(s.desired) + "\t"@ + text::decimal(s.generation as nat) + "\n"@,
        s.blocked_by matches Some(other) ==> status_line(id, s) == id + "\t"@ + observed_text(
            s.observed,
        ) + "\t"@ + desired_text(s.desired) + "\t"@ + text::decimal(s.generation as nat)
            + "\tblocked-by="@ + other + "\n"@,
{
    let head = id + "\t"@ + observed_text(s.observed) + "\t"@ + desired_text(s.desired) + "\t"@
        + text::decimal(s.generation as nat);
    match s.blocked_by {
        None => {
            assert(head + Seq::<char>::empty() + "\n"@ =~= head + "\n"@);
        },
        Some(other) => {
            assert(head + ("\tblocked-by="@ + other) + "\n"@ =~= head + "\tblocked-by="@ + other
                + "\n"@);
        },
    }
}

/// What the answer about the states has: a line of each service that is asked for, and nothing
/// where none is; in rescue, and where all are asked for, the reason comes first.
pub proof fn status_text_law(e: EngineModel, target: Seq<char>, reason: Option<Seq<char>>, i: int)
    requires
        0 <= i < e.services.len(),
    ensures
        ({
            let id = e.snapshot.catalog.services[i].id;
            let r = e.services[i];
            let words = status_text(e, reason, target);
            &&& target.len() == 0 || target == id ==> has_part(words, status_line(id, r.status()))
            &&& target.len() == 0 ==> (reason matches Some(why) ==> exists|rest: Seq<char>|
                words == #[trigger] ("mode=rescue\nreason="@ + why + "\n"@ + rest))
            &&& target.len() > 0 || reason is None ==> words == status_text(e, None, target)
        }),
        target.len() > 0 && (forall|j: int|
            0 <= j < e.services.len() ==> (#[trigger] e.snapshot.catalog.services[j]).id != target)
            ==> status_text(e, reason, target).len() == 0,
{
    let lines = status_lines(e, target, e.services.len());
    status_lines_law(e, target, e.services.len(), i);
    let id = e.snapshot.catalog.services[i].id;
    let line = status_line(id, e.services[i].status());
    if asked(target, id) {
        let (before, after) = choose|before: Seq<char>, after: Seq<char>|
            lines == #[trigger] (before + line + after);
        let head = rescue_lines(target, reason) + before;
        assert(status_text(e, reason, target) =~= head + line + after);
    }
    assert(status_text(e, None, target) =~= lines);
    if target.len() == 0 && reason is Some {
        assert(status_text(e, reason, target) =~= "mode=rescue\nreason="@ + reason->0 + "\n"@
            + lines);
    }
}

proof fn status_lines_law(e: EngineModel, target: Seq<char>, n: nat, i: int)
    ensures
        0 <= i < n && asked(target, e.snapshot.catalog.services[i].id) ==> has_part(
            status_lines(e, target, n),
            status_line(e.snapshot.catalog.services[i].id, e.services[i].status()),
        ),
        (forall|j: int|
            0 <= j < n ==> !asked(target, (#[trigger] e.snapshot.catalog.services[j]).id))
            ==> status_lines(e, target, n).len() == 0,
    decreases n,
{
    if n > 0 {
        status_lines_law(e, target, (n - 1) as nat, i);
        let before = status_lines(e, target, (n - 1) as nat);
        let all = status_lines(e, target, n);
        let line = status_line(e.snapshot.catalog.services[i].id, e.services[i].status());
        if i == n - 1 {
            if asked(target, e.snapshot.catalog.services[i].id) {
                assert(all =~= before + line + Seq::<char>::empty());
            }
        } else if 0 <= i < n - 1 && asked(target, e.snapshot.catalog.services[i].id) {
            let (a, b) = choose|a: Seq<char>, b: Seq<char>| before == #[trigger] (a + line + b);
            let last = e.snapshot.catalog.services[n - 1].id;
            let more = if asked(target, last) {
                status_line(last, e.services[n - 1].status())
            } else {
                Seq::empty()
            };
            assert(all =~= before + more);
            assert(before == a + line + b);
            assert((a + line + b) + more =~= a + line + (b + more));
        }
    }
}

/// From when times are counted: from the earliest time at which a service was queued, and from
/// zero where none was.
pub proof fn time_base_law(e: EngineModel, i: int)
    requires
        0 <= i < e.services.len(),
    ensures
        e.services[i].queued_at_ms matches Some(t) ==> time_base(e) <= t && exists|j: int|
            0 <= j < e.services.len() && (#[trigger] e.services[j]).queued_at_ms == Some(
                time_base(e),
            ),
        (forall|j: int|
            0 <= j < e.services.len() ==> (#[trigger] e.services[j]).queued_at_ms is None)
            ==> time_base(e) == 0,
{
    first_queued_law(e, e.services.len(), i);
}

proof fn first_queued_law(e: EngineModel, n: nat, i: int)
    requires
        n <= e.services.len(),
    ensures
        0 <= i < n ==> (e.services[i].queued_at_ms matches Some(t) ==> (first_queued(e, n)
            matches Some(first) && first <= t)),
        first_queued(e, n) is Some ==> exists|j: int|
            0 <= j < n && (#[trigger] e.services[j]).queued_at_ms == first_queued(e, n),
    decreases n,
{
    if n > 0 {
        first_queued_law(e, (n - 1) as nat, i);
        let before = first_queued(e, (n - 1) as nat);
        if before is Some && first_queued(e, n) == before {
            let j = choose|j: int|
                0 <= j < n - 1 && (#[trigger] e.services[j]).queued_at_ms == before;
            assert(e.services[j].queued_at_ms == first_queued(e, n));
        } else if first_queued(e, n) is Some {
            assert(e.services[n - 1].queued_at_ms == first_queued(e, n));
        }
    }
}

/// What the times of a service are: of a service that has none of a kind a dash is shown, and
/// else how much later it is; how long it took to be ready is the time from its start to then.
pub proof fn timing_line_law(id: Seq<char>, s: StatusModel, base: u64, t: u64, u: u64)
    ensures
        relative_time(None, base) == "-"@,
        optional_number(None) == "-"@,
        optional_number(Some(t)) == text::decimal(t as nat),
        t >= base ==> relative_time(Some(t), base) == text::decimal((t - base) as nat),
        s.ready_at_ms == Some(t) && s.started_at_ms == Some(u) && t >= u ==> startup_ms(s) == Some(
            (t - u) as u64,
        ),
        s.ready_at_ms is None || s.started_at_ms is None ==> startup_ms(s) is None,
        timing_line(id, s, base) == id + "\t"@ + relative_time(s.queued_at_ms, base) + "\t"@
            + relative_time(s.started_at_ms, base) + "\t"@ + relative_time(s.ready_at_ms, base)
            + "\t"@ + relative_time(s.exited_at_ms, base) + "\t"@ + optional_number(startup_ms(s))
            + "\n"@,
{
}

/// The times tell of each service.
pub proof fn timings_law(e: EngineModel, i: int)
    requires
        0 <= i < e.services.len(),
    ensures
        has_part(
            timings_text(e),
            timing_line(
                e.snapshot.catalog.services[i].id,
                e.services[i].status(),
                time_base(e),
            ),
        ),
{
    let base = time_base(e);
    let line = timing_line(e.snapshot.catalog.services[i].id, e.services[i].status(), base);
    timing_lines_law(e, base, e.services.len(), i);
    let lines = timing_lines(e, base, e.services.len());
    let (a, b) = choose|a: Seq<char>, b: Seq<char>| lines == #[trigger] (a + line + b);
    let head = "service\tqueued_ms\tstarted_ms\tready_ms\texited_ms\tstartup_ms\n"@ + a;
    assert(timings_text(e) =~= head + line + b);
}

proof fn timing_lines_law(e: EngineModel, base: u64, n: nat, i: int)
    requires
        0 <= i < n,
    ensures
        has_part(
            timing_lines(e, base, n),
            timing_line(e.snapshot.catalog.services[i].id, e.services[i].status(), base),
        ),
    decreases n,
{
    let line = timing_line(e.snapshot.catalog.services[i].id, e.services[i].status(), base);
    let before = timing_lines(e, base, (n - 1) as nat);
    let all = timing_lines(e, base, n);
    if i == n - 1 {
        assert(all =~= before + line + Seq::<char>::empty());
    } else {
        timing_lines_law(e, base, (n - 1) as nat, i);
        let (a, b) = choose|a: Seq<char>, b: Seq<char>| before == #[trigger] (a + line + b);
        let more = all.skip(before.len() as int);
        assert(all =~= a + line + (b + more));
    }
}

/// What a state shows to the outside: what the service is asked to be and is, its last attempt
/// and what holds it up, and its times; it was started only where there was an attempt.
pub proof fn shown_state_law(r: RuntimeModel)
    ensures
        r.status().desired == r.desired,
        r.status().observed == r.observed,
        r.status().generation == r.generation,
        r.status().blocked_by == r.blocked_by,
        r.status().queued_at_ms == r.queued_at_ms,
        r.status().ready_at_ms == r.ready_at_ms,
        r.status().exited_at_ms == r.exited_at_ms,
        r.generation == 0 ==> r.status().started_at_ms is None,
        r.generation > 0 ==> r.status().started_at_ms == Some(r.started_at_ms),
{
}

/// What questions about one name are answered: a service is active exactly where it is
/// observed to be, and a name is enabled exactly where a group requires or wants it; what is
/// not is told as a failure. What it depends on is told list by list, and is refused exactly
/// where nothing has the name. Each other question is always answered.
pub proof fn question_law(
    e: EngineModel,
    reason: Option<Seq<char>>,
    payload: Seq<u8>,
    name: Seq<char>,
    i: int,
)
    requires
        e.consistent(),
        request::target_result(payload) == Ok::<Seq<char>, ManagerErrorModel>(name),
        0 <= i < e.services.len(),
    ensures
        ({
            let c = e.snapshot.catalog;
            let active = query_result(e, reason, Operation::IsActive, payload);
            let enabled = query_result(e, reason, Operation::IsEnabled, payload);
            let depends = query_result(e, reason, Operation::Dependencies, payload);
            &&& active matches Ok((status, _)) && (status == StatusCode::Success || status
                == StatusCode::ServiceFailure)
            &&& c.services[i].id == name ==> (active matches Ok((status, words)) && (status
                == StatusCode::Success <==> e.services[i].observed == ObservedState::Active) && (
            status == StatusCode::Success ==> words == "active"@) && (status != StatusCode::Success
                ==> words == "inactive"@))
            &&& enabled matches Ok((status, words)) && (status == StatusCode::Success
                <==> config::listed_by_group(c, name)) && (status == StatusCode::Success ==> words
                == "enabled"@) && (status != StatusCode::Success ==> words == "disabled"@ && status
                == StatusCode::ServiceFailure)
            &&& depends is Err <==> !catalog::known(c, name)
            &&& c.services[i].id == name ==> depends == Ok::<
                (StatusCode, Seq<char>),
                ManagerErrorModel,
            >((StatusCode::Success, dependencies_text(c.services[i].dependencies)))
            &&& query_result(e, reason, Operation::Status, payload) == Ok::<
                (StatusCode, Seq<char>),
                ManagerErrorModel,
            >((StatusCode::Success, status_text(e, reason, question_target(payload))))
            &&& query_result(e, reason, Operation::List, payload) == query_result(
                e,
                reason,
                Operation::Status,
                payload,
            )
            &&& query_result(e, reason, Operation::Timings, payload) == Ok::<
                (StatusCode, Seq<char>),
                ManagerErrorModel,
            >((StatusCode::Success, timings_text(e)))
            &&& query_result(e, reason, Operation::CriticalPath, payload) == Ok::<
                (StatusCode, Seq<char>),
                ManagerErrorModel,
            >((StatusCode::Success, path_text(c, critical::critical_path(e))))
        }),
{
    let c = e.snapshot.catalog;
    catalog::known_law(c, name);
    if c.services[i].id == name {
        lifecycle::position_unique(c, i);
        assert(c.id(i) == name);
        catalog::catalog_distinct(c, c.node(name), i);
    }
}

/// What is told of dependencies: each list under its own word, with commas between the names.
pub proof fn dependencies_text_law(d: DependenciesModel)
    ensures
        dependencies_text(d) == "requires="@ + text::join(d.requires, ","@) + "\nwants="@
            + text::join(d.wants, ","@) + "\nafter="@ + text::join(d.after, ","@)
            + "\nconflicts="@ + text::join(d.conflicts, ","@) + "\n"@,
{
}

/// What is told of a critical path: how long it took, and its services in order.
pub proof fn path_text_law(c: CatalogModel, path: PathModel, k: int)
    requires
        0 <= k < path.services.len(),
    ensures
        path_text(c, path) == "duration_ms="@ + text::decimal(path.duration_ms as nat)
            + "\nservices="@ + text::join(path_names(c, path), " -> "@) + "\n"@,
        path_names(c, path).len() == path.services.len(),
        0 <= path.services[k] < c.services.len() ==> path_names(c, path)[k]
            == c.services[path.services[k]].id,
{
}

} // verus!
