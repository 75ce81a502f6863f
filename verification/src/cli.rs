//! The command-line client: arguments become a command, a command becomes an
//! IPC request, and a response becomes the text shown to the user.
use vstd::prelude::*;
use vstd::string::StringExecFns;
use crate::daemon::engine::texts;
use crate::protocol::ipc::{
    ActionDetailDto, ActionSummaryDto, EvaluationDto, EvidenceDto, IncidentSummaryDto,
    IntegrityFindingDto, IpcRequest, IpcResponse, MemoryNodeDto, TelemetryEventDto,
    TelemetrySourceDto, TransactionEventDto,
};
use crate::text::{
    decimal, decimal_spec, join, join_spec, pad_right, padded, parse_usize, str_eq, unsigned_value,
};

verus! {

/// The number of nodes `memory recent` shows by default.
pub const DEFAULT_RECENT_LIMIT: usize = 20;

/// A command of the client.
#[derive(Debug, PartialEq, Eq)]
pub enum Command {
    Status,
    Incidents,
    Incident(String),
    MemoryNodes { kind: Option<String> },
    MemoryRecent { limit: usize },
    MemoryNeighbours(String),
    MemoryPath(String, String),
    Actions,
    Action(String),
    CreateAction { incident_id: String, action: String, target: String },
    EvaluateAction(String),
    GuardStatus,
    GuardFindings,
    TelemetryStatus,
    TelemetryRecent { limit: usize },
    DebugSeedIncident { label: Option<String> },
    DebugGuardState(String),
    DebugGuardFinding { target: String, severity: String, description: String },
    Health,
    Version,
    Help,
}

/// The value of a command.
pub enum CommandView {
    Status,
    Incidents,
    Incident(Seq<char>),
    MemoryNodes { kind: Option<Seq<char>> },
    MemoryRecent { limit: usize },
    MemoryNeighbours(Seq<char>),
    MemoryPath(Seq<char>, Seq<char>),
    Actions,
    Action(Seq<char>),
    CreateAction { incident_id: Seq<char>, action: Seq<char>, target: Seq<char> },
    EvaluateAction(Seq<char>),
    GuardStatus,
    GuardFindings,
    TelemetryStatus,
    TelemetryRecent { limit: usize },
    DebugSeedIncident { label: Option<Seq<char>> },
    DebugGuardState(Seq<char>),
    DebugGuardFinding { target: Seq<char>, severity: Seq<char>, description: Seq<char> },
    Health,
    Version,
    Help,
}

/// The value of an optional text.
pub open spec fn opt_text(s: Option<String>) -> Option<Seq<char>> {
    match s {
        Some(t) => Some(t@),
        None => None,
    }
}

impl View for Command {
    type V = CommandView;

    open spec fn view(&self) -> CommandView {
        match self {
            Command::Status => CommandView::Status,
            Command::Incidents => CommandView::Incidents,
            Command::Incident(id) => CommandView::Incident(id@),
            Command::MemoryNodes { kind } => CommandView::MemoryNodes { kind: opt_text(*kind) },
            Command::MemoryRecent { limit } => CommandView::MemoryRecent { limit: *limit },
            Command::MemoryNeighbours(id) => CommandView::MemoryNeighbours(id@),
            Command::MemoryPath(a, b) => CommandView::MemoryPath(a@, b@),
            Command::Actions => CommandView::Actions,
            Command::Action(id) => CommandView::Action(id@),
            Command::CreateAction { incident_id, action, target } => CommandView::CreateAction {
                incident_id: incident_id@,
                action: action@,
                target: target@,
            },
            Command::EvaluateAction(id) => CommandView::EvaluateAction(id@),
            Command::GuardStatus => CommandView::GuardStatus,
            Command::GuardFindings => CommandView::GuardFindings,
            Command::TelemetryStatus => CommandView::TelemetryStatus,
            Command::TelemetryRecent { limit } => CommandView::TelemetryRecent { limit: *limit },
            Command::DebugSeedIncident { label } => CommandView::DebugSeedIncident {
                label: opt_text(*label),
            },
            Command::DebugGuardState(s) => CommandView::DebugGuardState(s@),
            Command::DebugGuardFinding { target, severity, description } =>
                CommandView::DebugGuardFinding {
                target: target@,
                severity: severity@,
                description: description@,
            },
            Command::Health => CommandView::Health,
            Command::Version => CommandView::Version,
            Command::Help => CommandView::Help,
        }
    }
}

/// A limit argument: the number it denotes when it fits in `usize`.
pub open spec fn limit_argument(s: Seq<char>) -> Option<usize> {
    match unsigned_value(s) {
        Some(n) => if n <= usize::MAX {
            Some(n as usize)
        } else {
            None
        },
        None => None,
    }
}

/// The command the arguments name; anything else asks for help.
pub open spec fn parse_spec(a: Seq<Seq<char>>) -> CommandView {
    let n = a.len();
    if n == 0 {
        CommandView::Help
    } else if n == 1 && (a[0] == "help"@ || a[0] == "--help"@ || a[0] == "-h"@) {
        CommandView::Help
    } else if n == 1 && a[0] == "status"@ {
        CommandView::Status
    } else if n == 1 && a[0] == "incidents"@ {
        CommandView::Incidents
    } else if n == 2 && (a[0] == "incident"@ || a[0] == "incidents"@) {
        CommandView::Incident(a[1])
    } else if n == 2 && a[0] == "memory"@ && a[1] == "nodes"@ {
        CommandView::MemoryNodes { kind: None }
    } else if n == 4 && a[0] == "memory"@ && a[1] == "nodes"@ && a[2] == "--kind"@ {
        CommandView::MemoryNodes { kind: Some(a[3]) }
    } else if n == 2 && a[0] == "memory"@ && a[1] == "recent"@ {
        CommandView::MemoryRecent { limit: 20 }
    } else if n == 3 && a[0] == "memory"@ && a[1] == "recent"@ {
        match limit_argument(a[2]) {
            Some(limit) => CommandView::MemoryRecent { limit },
            None => CommandView::Help,
        }
    } else if n == 3 && a[0] == "memory"@ && a[1] == "neighbours"@ {
        CommandView::MemoryNeighbours(a[2])
    } else if n == 4 && a[0] == "memory"@ && a[1] == "path"@ {
        CommandView::MemoryPath(a[2], a[3])
    } else if n == 1 && a[0] == "actions"@ {
        CommandView::Actions
    } else if n == 2 && (a[0] == "action"@ || a[0] == "actions"@) {
        CommandView::Action(a[1])
    } else if n == 5 && a[0] == "actions"@ && a[1] == "propose"@ {
        CommandView::CreateAction { incident_id: a[2], action: a[3], target: a[4] }
    } else if n == 1 && a[0] == "guard"@ {
        CommandView::GuardStatus
    } else if n == 2 && a[0] == "guard"@ && a[1] == "findings"@ {
        CommandView::GuardFindings
    } else if n == 1 && a[0] == "telemetry"@ {
        CommandView::TelemetryStatus
    } else if n == 2 && a[0] == "telemetry"@ && a[1] == "recent"@ {
        CommandView::TelemetryRecent { limit: 50 }
    } else if n == 3 && a[0] == "telemetry"@ && a[1] == "recent"@ {
        match limit_argument(a[2]) {
            Some(limit) => CommandView::TelemetryRecent { limit },
            None => CommandView::Help,
        }
    } else if n == 2 && a[0] == "debug"@ && a[1] == "seed-incident"@ {
        CommandView::DebugSeedIncident { label: None }
    } else if n == 3 && a[0] == "debug"@ && a[1] == "seed-incident"@ {
        CommandView::DebugSeedIncident { label: Some(a[2]) }
    } else if n == 3 && a[0] == "debug"@ && a[1] == "guard-state"@ {
        CommandView::DebugGuardState(a[2])
    } else if n == 5 && a[0] == "debug"@ && a[1] == "guard-finding"@ {
        CommandView::DebugGuardFinding { target: a[2], severity: a[3], description: a[4] }
    } else if n == 3 && a[0] == "actions"@ && a[1] == "evaluate"@ {
        CommandView::EvaluateAction(a[2])
    } else if n == 1 && a[0] == "health"@ {
        CommandView::Health
    } else if n == 1 && (a[0] == "version"@ || a[0] == "--version"@ || a[0] == "-V"@) {
        CommandView::Version
    } else {
        CommandView::Help
    }
}

fn copy(s: &String) -> (r: String)
    ensures
        r@ == s@,
{
    s.clone()
}

fn is(a: &String, word: &str) -> (r: bool)
    ensures
        r == (a@ == word@),
{
    str_eq(a.as_str(), word)
}

impl Command {
    /// The command the arguments name; anything else asks for help.
    pub fn parse(arguments: &[String]) -> (r: Command)
        ensures
            r@ == parse_spec(arguments@.map_values(|a: String| a@)),
    {
        let ghost a = arguments@.map_values(|x: String| x@);
        let n = arguments.len();
        assert(a.len() == n);
        if n >= 1 {
            assert(a[0] == arguments@[0]@);
        }
        if n >= 2 {
            assert(a[1] == arguments@[1]@);
        }
        if n >= 3 {
            assert(a[2] == arguments@[2]@);
        }
        if n >= 4 {
            assert(a[3] == arguments@[3]@);
        }
        if n >= 5 {
            assert(a[4] == arguments@[4]@);
        }
        if n == 0 {
            return Command::Help;
        }
        let c = &arguments[0];
        if n == 1 && (is(c, "help") || is(c, "--help") || is(c, "-h")) {
            return Command::Help;
        }
        if n == 1 && is(c, "status") {
            return Command::Status;
        }
        if n == 1 && is(c, "incidents") {
            return Command::Incidents;
        }
        if n == 2 && (is(c, "incident") || is(c, "incidents")) {
            return Command::Incident(copy(&arguments[1]));
        }
        if n == 2 && is(c, "memory") && is(&arguments[1], "nodes") {
            return Command::MemoryNodes { kind: None };
        }
        if n == 4 && is(c, "memory") && is(&arguments[1], "nodes") && is(&arguments[2], "--kind") {
            return Command::MemoryNodes { kind: Some(copy(&arguments[3])) };
        }
        if n == 2 && is(c, "memory") && is(&arguments[1], "recent") {
            return Command::MemoryRecent { limit: DEFAULT_RECENT_LIMIT };
        }
        if n == 3 && is(c, "memory") && is(&arguments[1], "recent") {
            return match parse_usize(arguments[2].as_str()) {
                Some(limit) => Command::MemoryRecent { limit },
                None => Command::Help,
            };
        }
        if n == 3 && is(c, "memory") && is(&arguments[1], "neighbours") {
            return Command::MemoryNeighbours(copy(&arguments[2]));
        }
        if n == 4 && is(c, "memory") && is(&arguments[1], "path") {
            return Command::MemoryPath(copy(&arguments[2]), copy(&arguments[3]));
        }
        if n == 1 && is(c, "actions") {
            return Command::Actions;
        }
        if n == 2 && (is(c, "action") || is(c, "actions")) {
            return Command::Action(copy(&arguments[1]));
        }
        if n == 5 && is(c, "actions") && is(&arguments[1], "propose") {
            return Command::CreateAction {
                incident_id: copy(&arguments[2]),
                action: copy(&arguments[3]),
                target: copy(&arguments[4]),
            };
        }
        if n == 1 && is(c, "guard") {
            return Command::GuardStatus;
        }
        if n == 2 && is(c, "guard") && is(&arguments[1], "findings") {
            return Command::GuardFindings;
        }
        if n == 1 && is(c, "telemetry") {
            return Command::TelemetryStatus;
        }
        if n == 2 && is(c, "telemetry") && is(&arguments[1], "recent") {
            return Command::TelemetryRecent { limit: 50 };
        }
        if n == 3 && is(c, "telemetry") && is(&arguments[1], "recent") {
            return match parse_usize(arguments[2].as_str()) {
                Some(limit) => Command::TelemetryRecent { limit },
                None => Command::Help,
            };
        }
        if n == 2 && is(c, "debug") && is(&arguments[1], "seed-incident") {
            return Command::DebugSeedIncident { label: None };
        }
        if n == 3 && is(c, "debug") && is(&arguments[1], "seed-incident") {
            return Command::DebugSeedIncident { label: Some(copy(&arguments[2])) };
        }
        if n == 3 && is(c, "debug") && is(&arguments[1], "guard-state") {
            return Command::DebugGuardState(copy(&arguments[2]));
        }
        if n == 5 && is(c, "debug") && is(&arguments[1], "guard-finding") {
            return Command::DebugGuardFinding {
                target: copy(&arguments[2]),
                severity: copy(&arguments[3]),
                description: copy(&arguments[4]),
            };
        }
        if n == 3 && is(c, "actions") && is(&arguments[1], "evaluate") {
            return Command::EvaluateAction(copy(&arguments[2]));
        }
        if n == 1 && is(c, "health") {
            return Command::Health;
        }
        if n == 1 && (is(c, "version") || is(c, "--version") || is(c, "-V")) {
            return Command::Version;
        }
        Command::Help
    }
}

/// Whether `r` is the IPC request of the command `c`: every command but
/// `version` and `help` has one, carrying the command's arguments.
pub open spec fn request_of(c: CommandView, r: Option<IpcRequest>) -> bool {
    match c {
        CommandView::Status => r == Some(IpcRequest::Status),
        CommandView::Incidents => r == Some(IpcRequest::Incidents),
        CommandView::Incident(id) => r matches Some(IpcRequest::Incident { id: x }) && x@ == id,
        CommandView::MemoryNodes { kind } => r matches Some(IpcRequest::MemoryNodes { kind: k })
            && opt_text(k) == kind,
        CommandView::MemoryRecent { limit } => r == Some(IpcRequest::MemoryRecent { limit }),
        CommandView::MemoryNeighbours(id) => r matches Some(IpcRequest::MemoryNeighbours { node_id })
            && node_id@ == id,
        CommandView::MemoryPath(a, b) => r matches Some(IpcRequest::MemoryPath { source, target })
            && source@ == a && target@ == b,
        CommandView::Actions => r == Some(IpcRequest::Actions),
        CommandView::Action(id) => r matches Some(IpcRequest::Action { id: x }) && x@ == id,
        CommandView::CreateAction { incident_id, action, target } => r matches Some(
            IpcRequest::CreateAction { incident_id: i, action: a, target: t },
        ) && i@ == incident_id && a@ == action && t@ == target,
        CommandView::EvaluateAction(id) => r matches Some(IpcRequest::EvaluateAction { id: x })
            && x@ == id,
        CommandView::GuardStatus => r == Some(IpcRequest::GuardStatus),
        CommandView::GuardFindings => r == Some(IpcRequest::GuardFindings),
        CommandView::TelemetryStatus => r == Some(IpcRequest::TelemetryStatus),
        CommandView::TelemetryRecent { limit } => r == Some(IpcRequest::TelemetryRecent { limit }),
        CommandView::DebugSeedIncident { label } => r matches Some(
            IpcRequest::DebugSeedIncident { label: l },
        ) && opt_text(l) == label,
        CommandView::DebugGuardState(state) => r matches Some(IpcRequest::DebugGuardState { state: x })
            && x@ == state,
        CommandView::DebugGuardFinding { target, severity, description } => r matches Some(
            IpcRequest::DebugGuardFinding { target: t, severity: s, description: d },
        ) && t@ == target && s@ == severity && d@ == description,
        CommandView::Health => r == Some(IpcRequest::Health),
        CommandView::Version => r is None,
        CommandView::Help => r is None,
    }
}

fn copy_opt(s: &Option<String>) -> (r: Option<String>)
    ensures
        opt_text(r) == opt_text(*s),
{
    match s {
        Some(t) => Some(t.clone()),
        None => None,
    }
}

impl Command {
    /// The IPC request of the command; `version` and `help` are answered
    /// without the daemon.
    pub fn request(&self) -> (r: Option<IpcRequest>)
        ensures
            request_of(self@, r),
    {
        match self {
            Command::Status => Some(IpcRequest::Status),
            Command::Incidents => Some(IpcRequest::Incidents),
            Command::Incident(id) => Some(IpcRequest::Incident { id: id.clone() }),
            Command::MemoryNodes { kind } => Some(IpcRequest::MemoryNodes { kind: copy_opt(kind) }),
            Command::MemoryRecent { limit } => Some(IpcRequest::MemoryRecent { limit: *limit }),
            Command::MemoryNeighbours(node_id) => Some(
                IpcRequest::MemoryNeighbours { node_id: node_id.clone() },
            ),
            Command::MemoryPath(source, target) => Some(
                IpcRequest::MemoryPath { source: source.clone(), target: target.clone() },
            ),
            Command::Actions => Some(IpcRequest::Actions),
            Command::Action(id) => Some(IpcRequest::Action { id: id.clone() }),
            Command::CreateAction { incident_id, action, target } => Some(
                IpcRequest::CreateAction {
                    incident_id: incident_id.clone(),
                    action: action.clone(),
                    target: target.clone(),
                },
            ),
            Command::EvaluateAction(id) => Some(IpcRequest::EvaluateAction { id: id.clone() }),
            Command::GuardStatus => Some(IpcRequest::GuardStatus),
            Command::GuardFindings => Some(IpcRequest::GuardFindings),
            Command::TelemetryStatus => Some(IpcRequest::TelemetryStatus),
            Command::TelemetryRecent { limit } => Some(IpcRequest::TelemetryRecent { limit: *limit }),
            Command::DebugSeedIncident { label } => Some(
                IpcRequest::DebugSeedIncident { label: copy_opt(label) },
            ),
            Command::DebugGuardState(state) => Some(IpcRequest::DebugGuardState { state: state.clone() }),
            Command::DebugGuardFinding { target, severity, description } => Some(
                IpcRequest::DebugGuardFinding {
                    target: target.clone(),
                    severity: severity.clone(),
                    description: description.clone(),
                },
            ),
            Command::Health => Some(IpcRequest::Health),
            Command::Version | Command::Help => None,
        }
    }
}


/// The line of a `IncidentSummaryDto` in a listing.
pub open spec fn incident_line_spec(x: IncidentSummaryDto) -> Seq<char> {
    x.id@ + "  "@ + pad_right(x.severity@, 8) + " "@ + pad_right(x.status@, 6) + " evidence="@ + decimal_spec(x.evidence_count as nat) + "  "@ + x.summary@
}

pub fn incident_line(x: &IncidentSummaryDto) -> (r: String)
    ensures
        r@ == incident_line_spec(*x),
{
    proof {
        reveal_strlit("  ");
        reveal_strlit(" ");
        reveal_strlit(" evidence=");
    }
    String::from_str(x.id.as_str()).concat("  ").concat(padded(x.severity.as_str(), 8).as_str()).concat(" ").concat(padded(x.status.as_str(), 6).as_str()).concat(" evidence=").concat(decimal(x.evidence_count).as_str()).concat("  ").concat(x.summary.as_str())
}

/// The lines of a listing of `IncidentSummaryDto`.
fn incident_lines(items: &Vec<IncidentSummaryDto>) -> (r: Vec<String>)
    ensures
        texts(r@) == items@.map_values(|x: IncidentSummaryDto| incident_line_spec(x)),
{
    let mut lines: Vec<String> = Vec::new();
    let mut i: usize = 0;
    while i < items.len()
        invariant
            i <= items@.len(),
            texts(lines@) == items@.take(i as int).map_values(|x: IncidentSummaryDto| incident_line_spec(x)),
        decreases items@.len() - i,
    {
        let ghost before = lines@;
        lines.push(incident_line(&items[i]));
        proof {
            assert(texts(lines@) =~= texts(before).push(incident_line_spec(items@[i as int])));
            assert(items@.take(i + 1).map_values(|x: IncidentSummaryDto| incident_line_spec(x)) =~= items@.take(i as int).map_values(
                |x: IncidentSummaryDto| incident_line_spec(x),
            ).push(incident_line_spec(items@[i as int])));
        }
        i = i + 1;
    }
    assert(items@.take(items@.len() as int) =~= items@);
    lines
}

/// The line of a `EvidenceDto` in a listing.
pub open spec fn evidence_line_spec(x: EvidenceDto) -> Seq<char> {
    "  "@ + x.id@ + " ["@ + x.source@ + " "@ + decimal_spec(x.confidence as nat) + "%] "@ + x.description@
}

pub fn evidence_line(x: &EvidenceDto) -> (r: String)
    ensures
        r@ == evidence_line_spec(*x),
{
    proof {
        reveal_strlit("  ");
        reveal_strlit(" [");
        reveal_strlit(" ");
        reveal_strlit("%] ");
    }
    String::from_str("  ").concat(x.id.as_str()).concat(" [").concat(x.source.as_str()).concat(" ").concat(decimal(x.confidence as u64).as_str()).concat("%] ").concat(x.description.as_str())
}

/// The lines of a listing of `EvidenceDto`.
fn evidence_lines(items: &Vec<EvidenceDto>) -> (r: Vec<String>)
    ensures
        texts(r@) == items@.map_values(|x: EvidenceDto| evidence_line_spec(x)),
{
    let mut lines: Vec<String> = Vec::new();
    let mut i: usize = 0;
    while i < items.len()
        invariant
            i <= items@.len(),
            texts(lines@) == items@.take(i as int).map_values(|x: EvidenceDto| evidence_line_spec(x)),
        decreases items@.len() - i,
    {
        let ghost before = lines@;
        lines.push(evidence_line(&items[i]));
        proof {
            assert(texts(lines@) =~= texts(before).push(evidence_line_spec(items@[i as int])));
            assert(items@.take(i + 1).map_values(|x: EvidenceDto| evidence_line_spec(x)) =~= items@.take(i as int).map_values(
                |x: EvidenceDto| evidence_line_spec(x),
            ).push(evidence_line_spec(items@[i as int])));
        }
        i = i + 1;
    }
    assert(items@.take(items@.len() as int) =~= items@);
    lines
}

/// The line of a `MemoryNodeDto` in a listing.
pub open spec fn node_line_spec(x: MemoryNodeDto) -> Seq<char> {
    x.id@ + "  "@ + pad_right(x.kind@, 16) + " "@ + pad_right(x.state@, 12) + " last_seen="@ + decimal_spec(x.last_seen_at as nat) + "  "@ + x.label@
}

pub fn node_line(x: &MemoryNodeDto) -> (r: String)
    ensures
        r@ == node_line_spec(*x),
{
    proof {
        reveal_strlit("  ");
        reveal_strlit(" ");
        reveal_strlit(" last_seen=");
    }
    String::from_str(x.id.as_str()).concat("  ").concat(padded(x.kind.as_str(), 16).as_str()).concat(" ").concat(padded(x.state.as_str(), 12).as_str()).concat(" last_seen=").concat(decimal(x.last_seen_at).as_str()).concat("  ").concat(x.label.as_str())
}

/// The lines of a listing of `MemoryNodeDto`.
fn node_lines(items: &Vec<MemoryNodeDto>) -> (r: Vec<String>)
    ensures
        texts(r@) == items@.map_values(|x: MemoryNodeDto| node_line_spec(x)),
{
    let mut lines: Vec<String> = Vec::new();
    let mut i: usize = 0;
    while i < items.len()
        invariant
            i <= items@.len(),
            texts(lines@) == items@.take(i as int).map_values(|x: MemoryNodeDto| node_line_spec(x)),
        decreases items@.len() - i,
    {
        let ghost before = lines@;
        lines.push(node_line(&items[i]));
        proof {
            assert(texts(lines@) =~= texts(before).push(node_line_spec(items@[i as int])));
            assert(items@.take(i + 1).map_values(|x: MemoryNodeDto| node_line_spec(x)) =~= items@.take(i as int).map_values(
                |x: MemoryNodeDto| node_line_spec(x),
            ).push(node_line_spec(items@[i as int])));
        }
        i = i + 1;
    }
    assert(items@.take(items@.len() as int) =~= items@);
    lines
}

/// The line of a `ActionSummaryDto` in a listing.
pub open spec fn action_line_spec(x: ActionSummaryDto) -> Seq<char> {
    x.id@ + "  "@ + pad_right(x.action@, 18) + " "@ + pad_right(x.status@, 15) + " "@ + x.incident_id@ + " -> "@ + x.target@
}

pub fn action_line(x: &ActionSummaryDto) -> (r: String)
    ensures
        r@ == action_line_spec(*x),
{
    proof {
        reveal_strlit("  ");
        reveal_strlit(" ");
        reveal_strlit(" -> ");
    }
    String::from_str(x.id.as_str()).concat("  ").concat(padded(x.action.as_str(), 18).as_str()).concat(" ").concat(padded(x.status.as_str(), 15).as_str()).concat(" ").concat(x.incident_id.as_str()).concat(" -> ").concat(x.target.as_str())
}

/// The lines of a listing of `ActionSummaryDto`.
fn action_lines(items: &Vec<ActionSummaryDto>) -> (r: Vec<String>)
    ensures
        texts(r@) == items@.map_values(|x: ActionSummaryDto| action_line_spec(x)),
{
    let mut lines: Vec<String> = Vec::new();
    let mut i: usize = 0;
    while i < items.len()
        invariant
            i <= items@.len(),
            texts(lines@) == items@.take(i as int).map_values(|x: ActionSummaryDto| action_line_spec(x)),
        decreases items@.len() - i,
    {
        let ghost before = lines@;
        lines.push(action_line(&items[i]));
        proof {
            assert(texts(lines@) =~= texts(before).push(action_line_spec(items@[i as int])));
            assert(items@.take(i + 1).map_values(|x: ActionSummaryDto| action_line_spec(x)) =~= items@.take(i as int).map_values(
                |x: ActionSummaryDto| action_line_spec(x),
            ).push(action_line_spec(items@[i as int])));
        }
        i = i + 1;
    }
    assert(items@.take(items@.len() as int) =~= items@);
    lines
}

/// The line of a `IntegrityFindingDto` in a listing.
pub open spec fn finding_line_spec(x: IntegrityFindingDto) -> Seq<char> {
    decimal_spec(x.id as nat) + "  "@ + pad_right(x.severity@, 13) + " "@ + x.target@ + "  "@ + x.description@
}

pub fn finding_line(x: &IntegrityFindingDto) -> (r: String)
    ensures
        r@ == finding_line_spec(*x),
{
    proof {
        reveal_strlit("  ");
        reveal_strlit(" ");
    }
    decimal(x.id).concat("  ").concat(padded(x.severity.as_str(), 13).as_str()).concat(" ").concat(x.target.as_str()).concat("  ").concat(x.description.as_str())
}

/// The lines of a listing of `IntegrityFindingDto`.
fn finding_lines(items: &Vec<IntegrityFindingDto>) -> (r: Vec<String>)
    ensures
        texts(r@) == items@.map_values(|x: IntegrityFindingDto| finding_line_spec(x)),
{
    let mut lines: Vec<String> = Vec::new();
    let mut i: usize = 0;
    while i < items.len()
        invariant
            i <= items@.len(),
            texts(lines@) == items@.take(i as int).map_values(|x: IntegrityFindingDto| finding_line_spec(x)),
        decreases items@.len() - i,
    {
        let ghost before = lines@;
        lines.push(finding_line(&items[i]));
        proof {
            assert(texts(lines@) =~= texts(before).push(finding_line_spec(items@[i as int])));
            assert(items@.take(i + 1).map_values(|x: IntegrityFindingDto| finding_line_spec(x)) =~= items@.take(i as int).map_values(
                |x: IntegrityFindingDto| finding_line_spec(x),
            ).push(finding_line_spec(items@[i as int])));
        }
        i = i + 1;
    }
    assert(items@.take(items@.len() as int) =~= items@);
    lines
}

/// The line of a `TelemetrySourceDto` in a listing.
pub open spec fn source_line_spec(x: TelemetrySourceDto) -> Seq<char> {
    pad_right(x.source@, 20) + " "@ + pad_right(x.status@, 10) + " "@ + x.detail@
}

pub fn source_line(x: &TelemetrySourceDto) -> (r: String)
    ensures
        r@ == source_line_spec(*x),
{
    proof {
        reveal_strlit(" ");
    }
    padded(x.source.as_str(), 20).concat(" ").concat(padded(x.status.as_str(), 10).as_str()).concat(" ").concat(x.detail.as_str())
}

/// The lines of a listing of `TelemetrySourceDto`.
fn source_lines(items: &Vec<TelemetrySourceDto>) -> (r: Vec<String>)
    ensures
        texts(r@) == items@.map_values(|x: TelemetrySourceDto| source_line_spec(x)),
{
    let mut lines: Vec<String> = Vec::new();
    let mut i: usize = 0;
    while i < items.len()
        invariant
            i <= items@.len(),
            texts(lines@) == items@.take(i as int).map_values(|x: TelemetrySourceDto| source_line_spec(x)),
        decreases items@.len() - i,
    {
        let ghost before = lines@;
        lines.push(source_line(&items[i]));
        proof {
            assert(texts(lines@) =~= texts(before).push(source_line_spec(items@[i as int])));
            assert(items@.take(i + 1).map_values(|x: TelemetrySourceDto| source_line_spec(x)) =~= items@.take(i as int).map_values(
                |x: TelemetrySourceDto| source_line_spec(x),
            ).push(source_line_spec(items@[i as int])));
        }
        i = i + 1;
    }
    assert(items@.take(items@.len() as int) =~= items@);
    lines
}

/// The line of a `EvaluationDto` in a listing.
pub open spec fn evaluation_line_spec(x: EvaluationDto) -> Seq<char> {
    "  "@ + pad_right(x.evaluator@, 11) + " "@ + pad_right(x.verdict@, 8) + " "@ + x.reason@
}

pub fn evaluation_line(x: &EvaluationDto) -> (r: String)
    ensures
        r@ == evaluation_line_spec(*x),
{
    proof {
        reveal_strlit("  ");
        reveal_strlit(" ");
    }
    String::from_str("  ").concat(padded(x.evaluator.as_str(), 11).as_str()).concat(" ").concat(padded(x.verdict.as_str(), 8).as_str()).concat(" ").concat(x.reason.as_str())
}

/// The lines of a listing of `EvaluationDto`.
fn evaluation_lines(items: &Vec<EvaluationDto>) -> (r: Vec<String>)
    ensures
        texts(r@) == items@.map_values(|x: EvaluationDto| evaluation_line_spec(x)),
{
    let mut lines: Vec<String> = Vec::new();
    let mut i: usize = 0;
    while i < items.len()
        invariant
            i <= items@.len(),
            texts(lines@) == items@.take(i as int).map_values(|x: EvaluationDto| evaluation_line_spec(x)),
        decreases items@.len() - i,
    {
        let ghost before = lines@;
        lines.push(evaluation_line(&items[i]));
        proof {
            assert(texts(lines@) =~= texts(before).push(evaluation_line_spec(items@[i as int])));
            assert(items@.take(i + 1).map_values(|x: EvaluationDto| evaluation_line_spec(x)) =~= items@.take(i as int).map_values(
                |x: EvaluationDto| evaluation_line_spec(x),
            ).push(evaluation_line_spec(items@[i as int])));
        }
        i = i + 1;
    }
    assert(items@.take(items@.len() as int) =~= items@);
    lines
}

/// The line of a `TransactionEventDto` in a listing.
pub open spec fn transaction_line_spec(x: TransactionEventDto) -> Seq<char> {
    "  "@ + pad_right(x.state@, 12) + " "@ + pad_right(x.status@, 15) + " "@ + match x.message { Some(m) => m@, None => Seq::<char>::empty() }
}

pub fn transaction_line(x: &TransactionEventDto) -> (r: String)
    ensures
        r@ == transaction_line_spec(*x),
{
    proof {
        reveal_strlit("  ");
        reveal_strlit(" ");
        reveal_strlit("");
    }
    String::from_str("  ").concat(padded(x.state.as_str(), 12).as_str()).concat(" ").concat(padded(x.status.as_str(), 15).as_str()).concat(" ").concat(match &x.message { Some(m) => m.as_str(), None => "" })
}

/// The lines of a listing of `TransactionEventDto`.
fn transaction_lines(items: &Vec<TransactionEventDto>) -> (r: Vec<String>)
    ensures
        texts(r@) == items@.map_values(|x: TransactionEventDto| transaction_line_spec(x)),
{
    let mut lines: Vec<String> = Vec::new();
    let mut i: usize = 0;
    while i < items.len()
        invariant
            i <= items@.len(),
            texts(lines@) == items@.take(i as int).map_values(|x: TransactionEventDto| transaction_line_spec(x)),
        decreases items@.len() - i,
    {
        let ghost before = lines@;
        lines.push(transaction_line(&items[i]));
        proof {
            assert(texts(lines@) =~= texts(before).push(transaction_line_spec(items@[i as int])));
            assert(items@.take(i + 1).map_values(|x: TransactionEventDto| transaction_line_spec(x)) =~= items@.take(i as int).map_values(
                |x: TransactionEventDto| transaction_line_spec(x),
            ).push(transaction_line_spec(items@[i as int])));
        }
        i = i + 1;
    }
    assert(items@.take(items@.len() as int) =~= items@);
    lines
}

/// The line of a telemetry event in a listing.
pub open spec fn event_line_spec(x: TelemetryEventDto) -> Seq<char> {
    decimal_spec(x.observed_at as nat) + "  "@ + pad_right(x.source@, 18) + " "@ + pad_right(x.event@, 18)
        + " pid="@ + match x.process_id {
        Some(p) => decimal_spec(p as nat),
        None => "-"@,
    } + "  "@ + x.source_object@ + " -> "@ + match x.target_object {
        Some(t) => t@,
        None => "-"@,
    } + if x.incident_ids@.len() == 0 {
        Seq::<char>::empty()
    } else {
        "  incidents="@ + join_spec(texts(x.incident_ids@), ","@)
    }
}

pub fn event_line(x: &TelemetryEventDto) -> (r: String)
    ensures
        r@ == event_line_spec(*x),
{
    proof {
        reveal_strlit("  ");
        reveal_strlit(" ");
        reveal_strlit(" pid=");
        reveal_strlit("-");
        reveal_strlit(" -> ");
        reveal_strlit("  incidents=");
        reveal_strlit("");
    }
    let pid = match x.process_id {
        Some(p) => decimal(p as u64),
        None => String::from_str("-"),
    };
    let target: &str = match &x.target_object {
        Some(t) => t.as_str(),
        None => "-",
    };
    let incidents = if x.incident_ids.len() == 0 {
        String::new()
    } else {
        String::from_str("  incidents=").concat(join(&x.incident_ids, ",").as_str())
    };
    decimal(x.observed_at).concat("  ").concat(padded(x.source.as_str(), 18).as_str()).concat(" ").concat(
        padded(x.event.as_str(), 18).as_str(),
    ).concat(" pid=").concat(pid.as_str()).concat("  ").concat(x.source_object.as_str()).concat(
        " -> ",
    ).concat(target).concat(incidents.as_str())
}

fn event_lines(items: &Vec<TelemetryEventDto>) -> (r: Vec<String>)
    ensures
        texts(r@) == items@.map_values(|x: TelemetryEventDto| event_line_spec(x)),
{
    let mut lines: Vec<String> = Vec::new();
    let mut i: usize = 0;
    while i < items.len()
        invariant
            i <= items@.len(),
            texts(lines@) == items@.take(i as int).map_values(|x: TelemetryEventDto| event_line_spec(x)),
        decreases items@.len() - i,
    {
        let ghost before = lines@;
        lines.push(event_line(&items[i]));
        proof {
            assert(texts(lines@) =~= texts(before).push(event_line_spec(items@[i as int])));
            assert(items@.take(i + 1).map_values(|x: TelemetryEventDto| event_line_spec(x))
                =~= items@.take(i as int).map_values(|x: TelemetryEventDto| event_line_spec(x)).push(
                event_line_spec(items@[i as int]),
            ));
        }
        i = i + 1;
    }
    assert(items@.take(items@.len() as int) =~= items@);
    lines
}

/// The text of an optional column, or `pending`.
pub open spec fn or_pending(s: Option<String>) -> Seq<char> {
    match s {
        Some(t) => t@,
        None => "pending"@,
    }
}

/// The text of a proposal with its MAGI evaluations and transaction events.
pub open spec fn render_action_spec(a: ActionDetailDto) -> Seq<char> {
    let evaluations = if a.evaluations@.len() == 0 {
        "  none"@
    } else {
        join_spec(a.evaluations@.map_values(|x: EvaluationDto| evaluation_line_spec(x)), "\n"@)
    };
    let transactions = join_spec(
        a.transactions@.map_values(|x: TransactionEventDto| transaction_line_spec(x)),
        "\n"@,
    );
    a.proposal.id@ + " ["@ + a.proposal.status@ + "] "@ + a.proposal.action@ + "\nincident: "@
        + a.proposal.incident_id@ + "\ntarget: "@ + a.proposal.target@ + "\nquorum: "@ + or_pending(
        a.proposal.quorum,
    ) + "\npolicy: "@ + or_pending(a.proposal.policy) + "\nguard: "@ + a.guard_requirement@
        + "\nMAGI:\n"@ + evaluations + "\ntransaction:\n"@ + transactions
}

pub fn render_action(action: &ActionDetailDto) -> (r: String)
    ensures
        r@ == render_action_spec(*action),
{
    proof {
        reveal_strlit("  none");
        reveal_strlit("\n");
        reveal_strlit(" [");
        reveal_strlit("] ");
        reveal_strlit("\nincident: ");
        reveal_strlit("\ntarget: ");
        reveal_strlit("\nquorum: ");
        reveal_strlit("\npolicy: ");
        reveal_strlit("\nguard: ");
        reveal_strlit("\nMAGI:\n");
        reveal_strlit("\ntransaction:\n");
        reveal_strlit("pending");
    }
    let evaluations = if action.evaluations.len() == 0 {
        String::from_str("  none")
    } else {
        join(&evaluation_lines(&action.evaluations), "\n")
    };
    let transactions = join(&transaction_lines(&action.transactions), "\n");
    let quorum: &str = match &action.proposal.quorum {
        Some(q) => q.as_str(),
        None => "pending",
    };
    let policy: &str = match &action.proposal.policy {
        Some(p) => p.as_str(),
        None => "pending",
    };
    String::from_str(action.proposal.id.as_str()).concat(" [").concat(action.proposal.status.as_str()).concat(
        "] ",
    ).concat(action.proposal.action.as_str()).concat("\nincident: ").concat(
        action.proposal.incident_id.as_str(),
    ).concat("\ntarget: ").concat(action.proposal.target.as_str()).concat("\nquorum: ").concat(quorum).concat(
        "\npolicy: ",
    ).concat(policy).concat("\nguard: ").concat(action.guard_requirement.as_str()).concat("\nMAGI:\n").concat(
        evaluations.as_str(),
    ).concat("\ntransaction:\n").concat(transactions.as_str())
}

/// The text of a list of nodes.
pub open spec fn render_nodes_spec(nodes: Seq<MemoryNodeDto>) -> Seq<char> {
    if nodes.len() == 0 {
        "No memory nodes."@
    } else {
        join_spec(nodes.map_values(|x: MemoryNodeDto| node_line_spec(x)), "\n"@)
    }
}

pub fn render_nodes(nodes: &Vec<MemoryNodeDto>) -> (r: String)
    ensures
        r@ == render_nodes_spec(nodes@),
{
    if nodes.len() == 0 {
        return String::from_str("No memory nodes.");
    }
    join(&node_lines(nodes), "\n")
}

/// The text a response is shown as.
pub open spec fn render_spec(response: IpcResponse) -> Seq<char> {
    match response {
        IpcResponse::Status(st) => "dendrited "@ + st.version@ + "\nobservations: "@ + decimal_spec(
            st.observations_ingested as nat,
        ) + "\nopen incidents: "@ + decimal_spec(st.incidents_open as nat) + "\nmemory nodes: "@
            + decimal_spec(st.memory_nodes_known as nat) + "\nsocket: "@ + st.socket_path@,
        IpcResponse::Incidents { incidents } => if incidents@.len() == 0 {
            "No incidents."@
        } else {
            join_spec(incidents@.map_values(|x: IncidentSummaryDto| incident_line_spec(x)), "\n"@)
        },
        IpcResponse::Incident { incident } => incident.incident.id@ + " ["@ + incident.incident.severity@
            + "] "@ + incident.incident.summary@ + "\nfirst seen: "@ + decimal_spec(
            incident.incident.first_seen_at as nat,
        ) + "\nlast seen: "@ + decimal_spec(incident.incident.last_seen_at as nat) + "\nobjects: "@
            + join_spec(texts(incident.related_objects@), ", "@) + "\nevidence:\n"@ + join_spec(
            incident.evidence@.map_values(|x: EvidenceDto| evidence_line_spec(x)),
            "\n"@,
        ),
        IpcResponse::MemoryNodes { nodes } => render_nodes_spec(nodes@),
        IpcResponse::MemoryRecent { nodes } => render_nodes_spec(nodes@),
        IpcResponse::MemoryNeighbours { node_id, neighbours } => if neighbours@.len() == 0 {
            node_id@ + ": no neighbours"@
        } else {
            node_id@ + ":\n  "@ + join_spec(texts(neighbours@), "\n  "@)
        },
        IpcResponse::MemoryPath { path } => match path {
            Some(p) => "score="@ + decimal_spec(p.score as nat) + "\n"@ + join_spec(texts(p.nodes@), " -> "@),
            None => "No path found."@,
        },
        IpcResponse::Actions { actions } => if actions@.len() == 0 {
            "No action proposals."@
        } else {
            join_spec(actions@.map_values(|x: ActionSummaryDto| action_line_spec(x)), "\n"@)
        },
        IpcResponse::Action { action } => render_action_spec(action),
        IpcResponse::GuardStatus(g) => "trust: "@ + g.trust_state@ + "\nauthority: "@ + g.authority@
            + "\nintegrity findings: "@ + decimal_spec(g.findings_count as nat),
        IpcResponse::GuardFindings { findings } => if findings@.len() == 0 {
            "No integrity findings."@
        } else {
            join_spec(findings@.map_values(|x: IntegrityFindingDto| finding_line_spec(x)), "\n"@)
        },
        IpcResponse::TelemetryStatus(t) => join_spec(
            t.sources@.map_values(|x: TelemetrySourceDto| source_line_spec(x)).push(
                "recent events: "@ + decimal_spec(t.recent_events as nat),
            ),
            "\n"@,
        ),
        IpcResponse::TelemetryRecent { events } => if events@.len() == 0 {
            "No recent telemetry events."@
        } else {
            join_spec(events@.map_values(|x: TelemetryEventDto| event_line_spec(x)), "\n"@)
        },
        IpcResponse::Health(h) => "daemon: "@ + h.daemon@ + "\nmemory: "@ + h.memory@ + "\nguard: "@
            + h.guard@,
        IpcResponse::Error { message } => "Error: "@ + message@,
    }
}

/// The text a response is shown as.
pub fn render_response(response: &IpcResponse) -> (r: String)
    ensures
        r@ == render_spec(*response),
{
    proof {
        reveal_strlit("\n");
    }
    match response {
        IpcResponse::Status(st) => {
            proof {
                reveal_strlit("dendrited ");
                reveal_strlit("\nobservations: ");
                reveal_strlit("\nopen incidents: ");
                reveal_strlit("\nmemory nodes: ");
                reveal_strlit("\nsocket: ");
            }
            String::from_str("dendrited ").concat(st.version.as_str()).concat("\nobservations: ").concat(
                decimal(st.observations_ingested).as_str(),
            ).concat("\nopen incidents: ").concat(decimal(st.incidents_open).as_str()).concat(
                "\nmemory nodes: ",
            ).concat(decimal(st.memory_nodes_known).as_str()).concat("\nsocket: ").concat(
                st.socket_path.as_str(),
            )
        },
        IpcResponse::Incidents { incidents } => {
            if incidents.len() == 0 {
                return String::from_str("No incidents.");
            }
            join(&incident_lines(incidents), "\n")
        },
        IpcResponse::Incident { incident } => {
            proof {
                reveal_strlit(" [");
                reveal_strlit("] ");
                reveal_strlit("\nfirst seen: ");
                reveal_strlit("\nlast seen: ");
                reveal_strlit("\nobjects: ");
                reveal_strlit(", ");
                reveal_strlit("\nevidence:\n");
            }
            let evidence = join(&evidence_lines(&incident.evidence), "\n");
            let objects = join(&incident.related_objects, ", ");
            String::from_str(incident.incident.id.as_str()).concat(" [").concat(
                incident.incident.severity.as_str(),
            ).concat("] ").concat(incident.incident.summary.as_str()).concat("\nfirst seen: ").concat(
                decimal(incident.incident.first_seen_at).as_str(),
            ).concat("\nlast seen: ").concat(decimal(incident.incident.last_seen_at).as_str()).concat(
                "\nobjects: ",
            ).concat(objects.as_str()).concat("\nevidence:\n").concat(evidence.as_str())
        },
        IpcResponse::MemoryNodes { nodes } => render_nodes(nodes),
        IpcResponse::MemoryRecent { nodes } => render_nodes(nodes),
        IpcResponse::MemoryNeighbours { node_id, neighbours } => {
            proof {
                reveal_strlit(": no neighbours");
                reveal_strlit(":\n  ");
                reveal_strlit("\n  ");
            }
            if neighbours.len() == 0 {
                String::from_str(node_id.as_str()).concat(": no neighbours")
            } else {
                String::from_str(node_id.as_str()).concat(":\n  ").concat(join(neighbours, "\n  ").as_str())
            }
        },
        IpcResponse::MemoryPath { path } => {
            proof {
                reveal_strlit("score=");
                reveal_strlit(" -> ");
            }
            match path {
                Some(p) => String::from_str("score=").concat(decimal(p.score as u64).as_str()).concat(
                    "\n",
                ).concat(join(&p.nodes, " -> ").as_str()),
                None => String::from_str("No path found."),
            }
        },
        IpcResponse::Actions { actions } => {
            if actions.len() == 0 {
                return String::from_str("No action proposals.");
            }
            join(&action_lines(actions), "\n")
        },
        IpcResponse::Action { action } => render_action(action),
        IpcResponse::GuardStatus(g) => {
            proof {
                reveal_strlit("trust: ");
                reveal_strlit("\nauthority: ");
                reveal_strlit("\nintegrity findings: ");
            }
            String::from_str("trust: ").concat(g.trust_state.as_str()).concat("\nauthority: ").concat(
                g.authority.as_str(),
            ).concat("\nintegrity findings: ").concat(decimal(g.findings_count).as_str())
        },
        IpcResponse::GuardFindings { findings } => {
            if findings.len() == 0 {
                String::from_str("No integrity findings.")
            } else {
                join(&finding_lines(findings), "\n")
            }
        },
        IpcResponse::TelemetryStatus(t) => {
            proof {
                reveal_strlit("recent events: ");
            }
            let mut lines = source_lines(&t.sources);
            let ghost before = lines@;
            lines.push(String::from_str("recent events: ").concat(decimal(t.recent_events as u64).as_str()));
            proof {
                assert(texts(lines@) =~= texts(before).push(
                    "recent events: "@ + decimal_spec(t.recent_events as nat),
                ));
            }
            join(&lines, "\n")
        },
        IpcResponse::TelemetryRecent { events } => {
            if events.len() == 0 {
                String::from_str("No recent telemetry events.")
            } else {
                join(&event_lines(events), "\n")
            }
        },
        IpcResponse::Health(h) => {
            proof {
                reveal_strlit("daemon: ");
                reveal_strlit("\nmemory: ");
                reveal_strlit("\nguard: ");
            }
            String::from_str("daemon: ").concat(h.daemon.as_str()).concat("\nmemory: ").concat(
                h.memory.as_str(),
            ).concat("\nguard: ").concat(h.guard.as_str())
        },
        IpcResponse::Error { message } => {
            proof {
                reveal_strlit("Error: ");
            }
            String::from_str("Error: ").concat(message.as_str())
        },
    }
}


/// The help text, naming the client's version.
pub open spec fn help_spec(version: Seq<char>) -> Seq<char> {
    "Dendrite "@ + version + "\n\nUsage:\n  dendrite <COMMAND>\n\nCommands:\n  status                                      Show daemon status\n  incidents                                   List incidents\n  incidents <ID>                              Show incident details\n  memory nodes                                List known Memory Graph nodes\n  memory nodes --kind <KIND>                  Filter nodes by kind\n  memory recent [LIMIT]                       Show recently seen nodes (default: "@ + decimal_spec(DEFAULT_RECENT_LIMIT as nat) + ")\n  memory neighbours <NODE>                    List neighbouring node IDs\n  memory path <SOURCE> <TARGET>               Find a graph path\n  actions                                     List action proposals\n  actions <ID>                                Show proposal, MAGI and transaction details\n  actions propose <INCIDENT> <ACTION> <TARGET> Create an action proposal\n  actions evaluate <ID>                       Evaluate and run a safe proposal\n  health                                      Show subsystem health\n  version                                     Show CLI version\n  help                                        Show this help\n\nBatch 3 executable actions:\n  observe, warn\n\nPrivileged actions are represented but policy-denied until Guard integration.\n\nNode kinds:\n  process, file, user, host, network_endpoint, service, container, incident, threat\n\nOptions:\n  -h, --help                                  Show this help\n  -V, --version                               Show CLI version"@
}

/// The help text, naming the client's version.
pub fn help(version: &str) -> (r: String)
    ensures
        r@ == help_spec(version@),
{
    String::from_str("Dendrite ").concat(version).concat("\n\nUsage:\n  dendrite <COMMAND>\n\nCommands:\n  status                                      Show daemon status\n  incidents                                   List incidents\n  incidents <ID>                              Show incident details\n  memory nodes                                List known Memory Graph nodes\n  memory nodes --kind <KIND>                  Filter nodes by kind\n  memory recent [LIMIT]                       Show recently seen nodes (default: ").concat(
        decimal(DEFAULT_RECENT_LIMIT as u64).as_str(),
    ).concat(")\n  memory neighbours <NODE>                    List neighbouring node IDs\n  memory path <SOURCE> <TARGET>               Find a graph path\n  actions                                     List action proposals\n  actions <ID>                                Show proposal, MAGI and transaction details\n  actions propose <INCIDENT> <ACTION> <TARGET> Create an action proposal\n  actions evaluate <ID>                       Evaluate and run a safe proposal\n  health                                      Show subsystem health\n  version                                     Show CLI version\n  help                                        Show this help\n\nBatch 3 executable actions:\n  observe, warn\n\nPrivileged actions are represented but policy-denied until Guard integration.\n\nNode kinds:\n  process, file, user, host, network_endpoint, service, container, incident, threat\n\nOptions:\n  -h, --help                                  Show this help\n  -V, --version                               Show CLI version")
}

/// The version line of the client.
pub open spec fn version_spec(version: Seq<char>) -> Seq<char> {
    "dendrite "@ + version
}

/// The version line of the client.
pub fn version_line(version: &str) -> (r: String)
    ensures
        r@ == version_spec(version@),
{
    String::from_str("dendrite ").concat(version)
}

/// The output of a command answered without the daemon: the version line
/// for `version`, the help text for `help`, and `None` for every command the
/// daemon answers.
pub fn local_output(command: &Command, version: &str) -> (r: Option<String>)
    ensures
        command is Version ==> (r matches Some(t) && t@ == version_spec(version@)),
        command is Help ==> (r matches Some(t) && t@ == help_spec(version@)),
        !(command is Version || command is Help) ==> r is None,
{
    match command {
        Command::Version => Some(version_line(version)),
        Command::Help => Some(help(version)),
        _ => None,
    }
}

} // verus!
