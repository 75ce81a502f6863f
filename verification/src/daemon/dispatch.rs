//! The daemon's request dispatch: each IPC request is answered from the core,
//! and a failure is answered with its debug form.
use vstd::prelude::*;
use vstd::string::StringExecFns;
use crate::daemon::engine::{
    DaemonCore, DaemonError, IngestionOutcome, event_kept, observation_ingested, action_detailed, actions_listed, default_query, events_listed,
    findings_listed, incident_detailed, incidents_listed, node_reports, nodes_listed, recent_listed,
    telemetry_reported, texts, incident_seeded,
};
use crate::daemon::incidents::has_incident;
use crate::daemon::actions::{
    ActionStoreError, evaluation_recorded, has_proposal, proposal_at, proposal_created,
    proposal_id_text,
};
use crate::daemon::guard::{FindingView, GuardStoreError, authority_name};
use crate::guard::authority_for;
use crate::memory::model::MemoryNodeKind;
use crate::memory::rows::StorageError;
use crate::memory::storage::PathQuery;
use crate::protocol::action::ActionType;
use crate::protocol::trust::{IntegritySeverity, TrustState};
use crate::memory::model::{MemoryNodeId, MemoryRelationshipId};
use crate::memory::storage::MemoryPath;
use crate::protocol::detection::ObservationKind;
use crate::protocol::ipc::{
    DaemonStatusDto, HealthDto, IncidentDetailDto, IpcRequest, IpcResponse, MemoryPathDto, TelemetryEventDto,
};
use crate::protocol::ids::IncidentId;
use crate::telemetry::CollectedObservation;

verus! {

/// How a component's health reads: "ok" when it answered, else "error".
pub open spec fn health_word(reachable: bool) -> Seq<char> {
    if reachable {
        "ok"@
    } else {
        "error"@
    }
}

/// The health word of a component.
pub fn health_text(reachable: bool) -> (r: String)
    ensures
        r@ == health_word(reachable),
{
    if reachable {
        String::from_str("ok")
    } else {
        String::from_str("error")
    }
}

/// What a request is answered with besides the core: the daemon's version,
/// its socket path, the current time, whether debug commands are on, and
/// whether the memory store answered a health probe.
pub struct RequestContext {
    pub version: String,
    pub socket_path: String,
    pub now: u64,
    pub debug_commands: bool,
    pub memory_reachable: bool,
}

/// The stored name of an observation kind.
pub open spec fn observation_kind_text(kind: ObservationKind) -> Seq<char> {
    match kind {
        ObservationKind::ProcessStarted => "process_started"@,
        ObservationKind::FileExecuted => "file_executed"@,
        ObservationKind::FileRead => "file_read"@,
        ObservationKind::FileWritten => "file_written"@,
        ObservationKind::NetworkConnection => "network_connection"@,
        ObservationKind::ServiceInteraction => "service_interaction"@,
        ObservationKind::Associated => "associated"@,
    }
}

pub fn observation_kind_name(kind: ObservationKind) -> (r: &'static str)
    ensures
        r@ == observation_kind_text(kind),
{
    match kind {
        ObservationKind::ProcessStarted => "process_started",
        ObservationKind::FileExecuted => "file_executed",
        ObservationKind::FileRead => "file_read",
        ObservationKind::FileWritten => "file_written",
        ObservationKind::NetworkConnection => "network_connection",
        ObservationKind::ServiceInteraction => "service_interaction",
        ObservationKind::Associated => "associated",
    }
}

/// Whether `d` reports the path `p`: its node and relationship identifiers
/// and its score.
pub open spec fn path_reports(d: MemoryPathDto, p: MemoryPath) -> bool {
    &&& texts(d.nodes@) == p.nodes@.map_values(|n: MemoryNodeId| n.0@)
    &&& texts(d.relationships@) == p.relationships@.map_values(|r: MemoryRelationshipId| r.0@)
    &&& d.score == p.score_spec()
}

/// The reported form of a path.
pub fn path_dto(path: MemoryPath) -> (r: MemoryPathDto)
    ensures
        path_reports(r, path),
{
    let score = path.score();
    let mut nodes: Vec<String> = Vec::new();
    let mut i: usize = 0;
    while i < path.nodes.len()
        invariant
            i <= path.nodes@.len(),
            texts(nodes@) == path.nodes@.take(i as int).map_values(|n: MemoryNodeId| n.0@),
        decreases path.nodes@.len() - i,
    {
        let ghost before = nodes@;
        nodes.push(path.nodes[i].0.clone());
        proof {
            assert(texts(nodes@) =~= texts(before).push(path.nodes@[i as int].0@));
            assert(path.nodes@.take(i + 1).map_values(|n: MemoryNodeId| n.0@) =~= path.nodes@.take(
                i as int,
            ).map_values(|n: MemoryNodeId| n.0@).push(path.nodes@[i as int].0@));
        }
        i = i + 1;
    }
    let mut relationships: Vec<String> = Vec::new();
    let mut j: usize = 0;
    while j < path.relationships.len()
        invariant
            j <= path.relationships@.len(),
            texts(relationships@) == path.relationships@.take(j as int).map_values(
                |r: MemoryRelationshipId| r.0@,
            ),
        decreases path.relationships@.len() - j,
    {
        let ghost before = relationships@;
        relationships.push(path.relationships[j].0.clone());
        proof {
            assert(texts(relationships@) =~= texts(before).push(path.relationships@[j as int].0@));
            assert(path.relationships@.take(j + 1).map_values(|r: MemoryRelationshipId| r.0@)
                =~= path.relationships@.take(j as int).map_values(|r: MemoryRelationshipId| r.0@).push(
                path.relationships@[j as int].0@,
            ));
        }
        j = j + 1;
    }
    assert(path.nodes@.take(path.nodes@.len() as int) =~= path.nodes@);
    assert(path.relationships@.take(path.relationships@.len() as int) =~= path.relationships@);
    MemoryPathDto { nodes, relationships, score }
}

/// The answer to a debug command while debug commands are off.
pub open spec fn debug_disabled_text() -> Seq<char> {
    "debug commands are disabled in release builds"@
}

fn debug_disabled() -> (r: IpcResponse)
    ensures
        r matches IpcResponse::Error { message } && message@ == debug_disabled_text(),
{
    IpcResponse::Error { message: String::from_str("debug commands are disabled in release builds") }
}

/// Whether a request only reads the core.
pub open spec fn reads_only(request: IpcRequest) -> bool {
    !(request is CreateAction || request is EvaluateAction || request is DebugSeedIncident
        || request is DebugGuardState || request is DebugGuardFinding)
}

/// Whether answering the request may change the core.
pub fn changes_state(request: &IpcRequest) -> (r: bool)
    ensures
        r == !reads_only(*request),
{
    match request {
        IpcRequest::CreateAction { .. } | IpcRequest::EvaluateAction { .. }
        | IpcRequest::DebugSeedIncident { .. } | IpcRequest::DebugGuardState { .. }
        | IpcRequest::DebugGuardFinding { .. } => true,
        _ => false,
    }
}

/// The label a seeding request asks for, or the default label.
pub open spec fn requested_label(label: Option<String>) -> Seq<char> {
    match label {
        Some(l) => l@,
        None => "Synthetic debug incident"@,
    }
}

/// Whether `r` answers `request` on the core `before`, which became
/// `after`: each request is answered by the response of its kind reporting
/// the core, a missing incident or proposal by an error response, a debug
/// command while debug commands are off by an error response, and a failing
/// core operation by the operation's error.
pub open spec fn request_answered(
    before: DaemonCore,
    after: DaemonCore,
    request: IpcRequest,
    context: RequestContext,
    r: Result<IpcResponse, DaemonError>,
) -> bool {
    &&& reads_only(request) ==> after == before
    &&& !context.debug_commands && (request is DebugSeedIncident || request is DebugGuardState
        || request is DebugGuardFinding) ==> (after == before && (r matches Ok(
        IpcResponse::Error { message },
    ) && message@ == debug_disabled_text()))
    &&& !reads_only(request) ==> {
        &&& after.memory_spec() == before.memory_spec() || request is DebugSeedIncident
        &&& after.incidents_spec() == before.incidents_spec() || request is DebugSeedIncident
        &&& after.actions_spec() == before.actions_spec() || request is CreateAction
            || request is EvaluateAction
        &&& after.guard_spec().state() == before.guard_spec().state() || request is DebugGuardState
        &&& after.recent_events() == before.recent_events() || request is DebugSeedIncident
    }
    &&& match request {
        IpcRequest::Status => r matches Ok(IpcResponse::Status(s)) && s.version@ == context.version@
            && s.observations_ingested == before.ingested() && s.incidents_open
            == before.incidents_spec().incidents_view().filter(
            |i: crate::daemon::incidents::IncidentView| i.status == "open"@,
        ).len() && s.memory_nodes_known == before.memory_spec().node_seq().len()
            && s.socket_path@ == context.socket_path@,
        IpcRequest::Incidents => r matches Ok(IpcResponse::Incidents { incidents })
            && incidents_listed(before, incidents@),
        IpcRequest::Incident { id } => if has_incident(before.incidents_spec().incidents_view(), id@) {
            r matches Ok(IpcResponse::Incident { incident }) && incident_detailed(before, id@, incident)
        } else {
            r matches Ok(IpcResponse::Error { message }) && message@ == "incident "@ + id@
                + " was not found"@
        },
        IpcRequest::MemoryNodes { kind } => match kind {
            Some(k) => match MemoryNodeKind::from_name_spec(k@) {
                None => r matches Err(DaemonError::Memory(StorageError::InvalidNodeKind(t))) && t@ == k@,
                Some(parsed) => r matches Ok(IpcResponse::MemoryNodes { nodes }) && nodes_listed(
                    before,
                    Some(parsed),
                    nodes@,
                ),
            },
            None => r matches Ok(IpcResponse::MemoryNodes { nodes }) && nodes@.len()
                == before.memory_spec().node_seq().len() && forall|k: int|
                0 <= k < nodes@.len() ==> node_reports(#[trigger] nodes@[k], before.memory_spec().node_seq()[k]),
        },
        IpcRequest::MemoryRecent { limit } => r matches Ok(IpcResponse::MemoryRecent { nodes })
            && recent_listed(before, limit, nodes@),
        IpcRequest::MemoryNeighbours { node_id } => r matches Ok(
            IpcResponse::MemoryNeighbours { node_id: n, neighbours },
        ) && n@ == node_id@ && crate::memory::keyed::sorted_by_key(texts(neighbours@), |x: Seq<char>| x)
            && forall|k: Seq<char>|
            texts(neighbours@).contains(k) <==> before.memory_spec().is_neighbour(node_id@, k),
        IpcRequest::MemoryPath { source, target } => r matches Ok(IpcResponse::MemoryPath { path })
            && (source@ == target@ ==> path is Some) && (path matches Some(d) ==> exists|
            q: PathQuery,
            p: MemoryPath,
        |
            #[trigger] default_query(q) && #[trigger] before.memory_spec().is_found_path(
                q,
                source@,
                target@,
                p,
            ) && before.memory_spec().shortest(q, source@, target@, p)
                && before.memory_spec().searched(q, source@, target@, p) && path_reports(d, p)) && (path is None ==> exists|q: PathQuery|
            #[trigger] default_query(q) && !before.memory_spec().reaches_within(q, source@, target@, 8)),
        IpcRequest::Actions => r matches Ok(IpcResponse::Actions { actions }) && actions_listed(
            before,
            actions@,
        ),
        IpcRequest::Action { id } => if has_proposal(before.actions_spec().proposals_view(), id@) {
            r matches Ok(IpcResponse::Action { action }) && action_detailed(before, id@, action)
        } else {
            r matches Ok(IpcResponse::Error { message }) && message@ == "action proposal "@ + id@
                + " was not found"@
        },
        IpcRequest::CreateAction { incident_id, action, target } => {
            &&& !has_incident(before.incidents_spec().incidents_view(), incident_id@) ==> (r matches Err(
                DaemonError::Actions(ActionStoreError::InvalidProposal(m)),
            ) && m@ == "incident "@ + incident_id@ + " does not exist"@)
            &&& has_incident(before.incidents_spec().incidents_view(), incident_id@) ==> (r is Ok
                <==> ActionType::from_name_spec(action@) is Some && !has_proposal(
                before.actions_spec().proposals_view(),
                proposal_id_text(before.actions_spec().next_proposal_count()),
            ))
            &&& has_incident(before.incidents_spec().incidents_view(), incident_id@)
                && ActionType::from_name_spec(action@) is None ==> (r matches Err(
                DaemonError::Actions(ActionStoreError::InvalidAction(t)),
            ) && t@ == action@)
            &&& r matches Ok(resp) ==> (resp matches IpcResponse::Action { action: d }
                && proposal_created(
                before.actions_spec(),
                after.actions_spec(),
                incident_id@,
                action@,
                target@,
                context.now,
                d,
            ))
            &&& r matches Err(e) ==> e is Actions
        },
        IpcRequest::EvaluateAction { id } => {
            &&& r is Ok <==> exists|i: int|
                proposal_at(before.actions_spec().proposals_view(), id@, i)
                    && ActionType::from_name_spec(before.actions_spec().proposals_view()[i].action) is Some
            &&& !has_proposal(before.actions_spec().proposals_view(), id@) ==> (r matches Err(
                DaemonError::Actions(ActionStoreError::InvalidProposal(m)),
            ) && m@ == "proposal "@ + id@ + " not found"@)
            &&& r matches Ok(resp) ==> (resp matches IpcResponse::Action { action: d } && d.proposal.id@
                == id@ && exists|i: int, rep: crate::action::TransactionReport|
                #[trigger] evaluation_recorded(
                    before.actions_spec(),
                    after.actions_spec(),
                    id@,
                    authority_for(before.guard_spec().state()),
                    before.guard_spec().state(),
                    context.now,
                    d,
                    i,
                    rep,
                ))
            &&& r matches Err(e) ==> e is Actions
        },
        IpcRequest::GuardStatus => r matches Ok(IpcResponse::GuardStatus(s)) && s.trust_state@
            == before.guard_spec().state().name() && s.authority@ == authority_name(
            before.guard_spec().state(),
        ) && s.findings_count == before.guard_spec().findings_view().len(),
        IpcRequest::GuardFindings => r matches Ok(IpcResponse::GuardFindings { findings })
            && findings_listed(before, findings@),
        IpcRequest::TelemetryRecent { limit } => r matches Ok(IpcResponse::TelemetryRecent { events })
            && events_listed(before, limit, events@),
        IpcRequest::TelemetryStatus => r matches Ok(IpcResponse::TelemetryStatus(s))
            && telemetry_reported(before, s),
        IpcRequest::DebugSeedIncident { label } => context.debug_commands ==> exists|
            x: Result<IncidentDetailDto, DaemonError>,
        |
            #[trigger] incident_seeded(
                before,
                after,
                requested_label(label),
                context.now,
                x,
            ) && match x {
                Ok(d) => r == Ok::<IpcResponse, DaemonError>(IpcResponse::Incident { incident: d }),
                Err(e) => r == Err::<IpcResponse, DaemonError>(e),
            },
        IpcRequest::DebugGuardState { state } => context.debug_commands ==> ((r matches Ok(
            IpcResponse::GuardStatus(s),
        ) && Some(after.guard_spec().state()) == TrustState::from_name_spec(state@)
            && s.trust_state@ == after.guard_spec().state().name() && s.authority@ == authority_name(
            after.guard_spec().state(),
        )) || (r matches Err(DaemonError::Guard(GuardStoreError::InvalidTrustState(t))) && t@ == state@
            && TrustState::from_name_spec(state@) is None)),
        IpcRequest::DebugGuardFinding { target, severity, description } => context.debug_commands ==> ((
        r matches Ok(IpcResponse::GuardFindings { findings }) && findings_listed(after, findings@)
            && after.guard_spec().findings_view() == before.guard_spec().findings_view().push(
            FindingView {
                id: before.guard_spec().next_finding_id(),
                target: target@,
                severity: IntegritySeverity::from_name_spec(severity@)->0,
                description: description@,
                recorded_at: context.now,
            },
        )) || (r matches Err(DaemonError::Guard(GuardStoreError::InvalidSeverity(t))) && t@ == severity@
            && IntegritySeverity::from_name_spec(severity@) is None)),
        IpcRequest::Health => r matches Ok(IpcResponse::Health(h)) && h.daemon@ == "ok"@ && h.memory@
            == health_word(context.memory_reachable) && h.guard@ == before.guard_spec().state().name(),
    }
}

/// Answers a request from the core, a failing core operation as the error.
pub fn try_handle_request(core: &mut DaemonCore, request: IpcRequest, context: &RequestContext) -> (r:
    Result<IpcResponse, DaemonError>)
    requires
        old(core).well_formed(),
    ensures
        final(core).well_formed(),
        request_answered(*old(core), *final(core), request, *context, r),
{
    proof {
        reveal_strlit("ok");
    }
    match request {
        IpcRequest::Status => Ok(
            IpcResponse::Status(
                DaemonStatusDto {
                    version: context.version.clone(),
                    observations_ingested: core.observations_ingested(),
                    incidents_open: core.incident_count(),
                    memory_nodes_known: core.memory().node_count(),
                    socket_path: context.socket_path.clone(),
                },
            ),
        ),
        IpcRequest::Incidents => Ok(IpcResponse::Incidents { incidents: core.list_incidents() }),
        IpcRequest::Incident { id } => match core.incident_detail(id.as_str()) {
            Some(incident) => Ok(IpcResponse::Incident { incident }),
            None => {
                proof {
                    reveal_strlit("incident ");
                    reveal_strlit(" was not found");
                }
                let message = String::from_str("incident ").concat(id.as_str()).concat(" was not found");
                Ok(IpcResponse::Error { message })
            },
        },
        IpcRequest::MemoryNodes { kind } => {
            let kind_text: Option<&str> = match &kind {
                Some(k) => Some(k.as_str()),
                None => None,
            };
            let nodes = core.memory_nodes(kind_text)?;
            proof {
                if kind is None {
                    crate::memory::keyed::lemma_filter_all(
                        core.memory_spec().node_seq(),
                        crate::memory::storage::kind_filter(None),
                    );
                }
            }
            Ok(IpcResponse::MemoryNodes { nodes })
        },
        IpcRequest::MemoryRecent { limit } => Ok(IpcResponse::MemoryRecent { nodes: core.memory_recent(limit) }),
        IpcRequest::MemoryNeighbours { node_id } => {
            let neighbours = core.memory_neighbours(node_id.as_str());
            Ok(IpcResponse::MemoryNeighbours { neighbours, node_id })
        },
        IpcRequest::MemoryPath { source, target } => {
            let path = match core.memory_path(source.as_str(), target.as_str()) {
                Some(p) => Some(path_dto(p)),
                None => None,
            };
            Ok(IpcResponse::MemoryPath { path })
        },
        IpcRequest::Actions => Ok(IpcResponse::Actions { actions: core.list_actions() }),
        IpcRequest::Action { id } => match core.action_detail(id.as_str()) {
            Some(action) => {
                proof {
                    let i = choose|i: int|
                        crate::daemon::actions::proposal_at(core.actions_spec().proposals_view(), id@, i)
                            && crate::daemon::actions::detail_reports(
                            action,
                            core.actions_spec().proposals_view()[i],
                            crate::daemon::actions::evaluations_of(core.actions_spec().evaluations_view(), id@),
                            crate::daemon::actions::transactions_of(
                                core.actions_spec().transactions_view(),
                                id@,
                            ),
                        );
                }
                Ok(IpcResponse::Action { action })
            },
            None => {
                proof {
                    reveal_strlit("action proposal ");
                    reveal_strlit(" was not found");
                }
                let message = String::from_str("action proposal ").concat(id.as_str()).concat(
                    " was not found",
                );
                Ok(IpcResponse::Error { message })
            },
        },
        IpcRequest::CreateAction { incident_id, action, target } => {
            let action = core.create_action(
                incident_id.as_str(),
                action.as_str(),
                target.as_str(),
                context.now,
            )?;
            Ok(IpcResponse::Action { action })
        },
        IpcRequest::EvaluateAction { id } => {
            let action = core.evaluate_action(id.as_str(), context.now)?;
            proof {
                let (i, rep) = choose|i: int, rep: crate::action::TransactionReport|
                    crate::daemon::actions::evaluation_recorded(
                        old(core).actions_spec(),
                        core.actions_spec(),
                        id@,
                        crate::guard::authority_for(old(core).guard_spec().state()),
                        old(core).guard_spec().state(),
                        context.now,
                        action,
                        i,
                        rep,
                    );
                let j = choose|j: int|
                    crate::daemon::actions::proposal_at(core.actions_spec().proposals_view(), id@, j)
                        && crate::daemon::actions::detail_reports(
                        action,
                        core.actions_spec().proposals_view()[j],
                        crate::daemon::actions::evaluations_of(core.actions_spec().evaluations_view(), id@),
                        crate::daemon::actions::transactions_of(core.actions_spec().transactions_view(), id@),
                    );
            }
            Ok(IpcResponse::Action { action })
        },
        IpcRequest::GuardStatus => Ok(IpcResponse::GuardStatus(core.guard_status())),
        IpcRequest::GuardFindings => Ok(IpcResponse::GuardFindings { findings: core.guard_findings() }),
        IpcRequest::TelemetryRecent { limit } => Ok(
            IpcResponse::TelemetryRecent { events: core.telemetry_recent(limit) },
        ),
        IpcRequest::TelemetryStatus => Ok(IpcResponse::TelemetryStatus(core.telemetry_status())),
        IpcRequest::DebugGuardState { state } => {
            if !context.debug_commands {
                return Ok(debug_disabled());
            }
            Ok(IpcResponse::GuardStatus(core.debug_set_guard_state(state.as_str(), context.now)?))
        },
        IpcRequest::DebugGuardFinding { target, severity, description } => {
            if !context.debug_commands {
                return Ok(debug_disabled());
            }
            Ok(
                IpcResponse::GuardFindings {
                    findings: core.debug_record_guard_finding(
                        target.as_str(),
                        severity.as_str(),
                        description.as_str(),
                        context.now,
                    )?,
                },
            )
        },
        IpcRequest::DebugSeedIncident { label } => {
            if !context.debug_commands {
                return Ok(debug_disabled());
            }
            let label_text: Option<&str> = match &label {
                Some(l) => Some(l.as_str()),
                None => None,
            };
            let ghost before = *core;
            assert(crate::daemon::engine::seed_label(label_text) == requested_label(label));
            let seeded = core.debug_seed_incident(label_text, context.now);
            let ghost gs = seeded;
            assert(incident_seeded(before, *core, requested_label(label), context.now, gs));
            let r = match seeded {
                Ok(incident) => Ok(IpcResponse::Incident { incident }),
                Err(e) => Err(e),
            };
            assert(match gs {
                Ok(d) => r == Ok::<IpcResponse, DaemonError>(IpcResponse::Incident { incident: d }),
                Err(e) => r == Err::<IpcResponse, DaemonError>(e),
            });
            r
        },
        IpcRequest::Health => {
            let status = core.guard_status();
            Ok(
                IpcResponse::Health(
                    HealthDto {
                        daemon: String::from_str("ok"),
                        memory: health_text(context.memory_reachable),
                        guard: status.trust_state,
                    },
                ),
            )
        },
    }
}

/// Answers a request, a failure with an error response carrying the
/// failure's debug form.
pub fn handle_request(core: &mut DaemonCore, request: IpcRequest, context: &RequestContext) -> (r:
    IpcResponse)
    requires
        old(core).well_formed(),
    ensures
        final(core).well_formed(),
        exists|answer: Result<IpcResponse, DaemonError>|
            #[trigger] request_answered(*old(core), *final(core), request, *context, answer) && match answer {
                Ok(response) => r == response,
                Err(e) => r matches IpcResponse::Error { message } && (!(e matches DaemonError::Memory(
                    StorageError::InvalidReinforcementEvidenceJson(_),
                )) ==> message@ == e.describe_spec()),
            },
{
    match try_handle_request(core, request, context) {
        Ok(response) => response,
        Err(error) => IpcResponse::Error { message: error.describe() },
    }
}

/// Whether `e` is the telemetry event recorded for a collected observation
/// whose ingestion produced the incidents `incidents`.
pub open spec fn collected_event(c: CollectedObservation, incidents: Seq<Seq<char>>, e: TelemetryEventDto) -> bool {
    &&& e.id@ == c.observation.id.0@
    &&& e.source@ == c.source.name()
    &&& e.event@ == c.event@
    &&& e.observation_kind@ == observation_kind_text(c.observation.kind)
    &&& e.process_id == c.process_id
    &&& e.source_object@ == c.observation.source.id.0@
    &&& crate::daemon::actions::opt_view(e.target_object) == match c.observation.target {
        Some(t) => Some(t.id.0@),
        None => None,
    }
    &&& crate::daemon::actions::opt_view(e.target_label) == match c.observation.target {
        Some(t) => Some(t.label@),
        None => None,
    }
    &&& e.observed_at == c.observation.observed_at
    &&& texts(e.incident_ids@) == incidents
}

/// The identifiers of a list of incidents.
pub open spec fn incident_texts(ids: Seq<IncidentId>) -> Seq<Seq<char>> {
    ids.map_values(|x: IncidentId| x.0@)
}

/// Ingests a collected observation and keeps its telemetry event, naming the
/// incidents it produced; a failed ingestion keeps no event and is returned.
pub fn record_collected(core: &mut DaemonCore, collected: CollectedObservation) -> (r: Result<(), DaemonError>)
    requires
        old(core).well_formed(),
    ensures
        final(core).well_formed(),
        exists|mid: DaemonCore, outcome: Result<IngestionOutcome, DaemonError>|
            #[trigger] observation_ingested(*old(core), mid, collected.observation, outcome) && match outcome {
                Err(e) => r == Err::<(), DaemonError>(e) && *final(core) == mid,
                Ok(o) => {
                    &&& r is Ok
                    &&& final(core).memory_spec() == mid.memory_spec()
                    &&& final(core).incidents_spec() == mid.incidents_spec()
                    &&& final(core).actions_spec() == mid.actions_spec()
                    &&& final(core).guard_spec() == mid.guard_spec()
                    &&& final(core).ingested() == mid.ingested()
                    &&& final(core).sources() == mid.sources()
                    &&& exists|e: TelemetryEventDto|
                        #![trigger event_kept(mid.recent_events(), e)]
                        collected_event(collected, incident_texts(o.incidents@), e)
                            && final(core).recent_events() == event_kept(mid.recent_events(), e)
                },
            },
{
    let ingested = core.ingest_observation(&collected.observation);
    let ghost mid = *core;
    let ghost result = ingested;
    let outcome = match ingested {
        Ok(o) => o,
        Err(e) => {
            assert(observation_ingested(*old(core), mid, collected.observation, result));
            return Err(e);
        },
    };
    let mut incident_ids: Vec<String> = Vec::new();
    let mut i: usize = 0;
    while i < outcome.incidents.len()
        invariant
            i <= outcome.incidents@.len(),
            texts(incident_ids@) == outcome.incidents@.take(i as int).map_values(|x: IncidentId| x.0@),
        decreases outcome.incidents@.len() - i,
    {
        let ghost before = incident_ids@;
        incident_ids.push(outcome.incidents[i].0.clone());
        proof {
            assert(texts(incident_ids@) =~= texts(before).push(outcome.incidents@[i as int].0@));
            assert(outcome.incidents@.take(i + 1).map_values(|x: IncidentId| x.0@) =~= outcome.incidents@.take(
                i as int,
            ).map_values(|x: IncidentId| x.0@).push(outcome.incidents@[i as int].0@));
        }
        i = i + 1;
    }
    let observation = &collected.observation;
    let (target_object, target_label) = match &observation.target {
        Some(t) => (Some(t.id.0.clone()), Some(t.label.clone())),
        None => (None, None),
    };
    let event = TelemetryEventDto {
        id: observation.id.0.clone(),
        source: String::from_str(collected.source.as_str()),
        event: collected.event.clone(),
        observation_kind: String::from_str(observation_kind_name(observation.kind)),
        process_id: collected.process_id,
        source_object: observation.source.id.0.clone(),
        target_object,
        target_label,
        observed_at: observation.observed_at,
        incident_ids,
    };
    assert(collected_event(collected, texts(event.incident_ids@), event));
    let ghost recorded = event;
    core.record_telemetry_event(event);
    assert(observation_ingested(*old(core), mid, collected.observation, result));
    assert(incident_texts(outcome.incidents@) == texts(recorded.incident_ids@));
    assert(collected_event(collected, incident_texts(outcome.incidents@), recorded));
    Ok(())
}

} // verus!
