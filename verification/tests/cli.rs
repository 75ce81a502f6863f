use dendrite::cli::{help, local_output, render_response, version_line, Command};
use dendrite::protocol::ipc::{GuardStatusDto, IpcRequest, IpcResponse, MemoryPathDto};

fn args(values: &[&str]) -> Vec<String> {
    values.iter().map(|value| (*value).into()).collect()
}

#[test]
fn parses_memory_path() {
    assert_eq!(
        Command::parse(&args(&["memory", "path", "a", "b"])),
        Command::MemoryPath("a".into(), "b".into())
    );
}

#[test]
fn parses_incident_detail() {
    assert_eq!(
        Command::parse(&args(&["incidents", "inc_00000001"])),
        Command::Incident("inc_00000001".into())
    );
}

#[test]
fn parses_memory_nodes_kind_filter() {
    assert_eq!(
        Command::parse(&args(&["memory", "nodes", "--kind", "process"])),
        Command::MemoryNodes {
            kind: Some("process".into())
        }
    );
}

#[test]
fn parses_action_proposal_creation() {
    assert_eq!(
        Command::parse(&args(&[
            "actions",
            "propose",
            "inc_00000001",
            "warn",
            "process:1"
        ])),
        Command::CreateAction {
            incident_id: "inc_00000001".into(),
            action: "warn".into(),
            target: "process:1".into()
        }
    );
}

#[test]
fn parses_action_evaluation() {
    assert_eq!(
        Command::parse(&args(&["actions", "evaluate", "act_00000001"])),
        Command::EvaluateAction("act_00000001".into())
    );
}

#[test]
fn parses_telemetry_status() {
    assert_eq!(Command::parse(&args(&["telemetry"])), Command::TelemetryStatus);
}

#[test]
fn parses_telemetry_recent_limit() {
    assert_eq!(
        Command::parse(&args(&["telemetry", "recent", "25"])),
        Command::TelemetryRecent { limit: 25 }
    );
}

#[test]
fn parses_debug_seed_incident() {
    assert_eq!(
        Command::parse(&args(&["debug", "seed-incident", "ui-test"])),
        Command::DebugSeedIncident {
            label: Some("ui-test".into())
        }
    );
}

#[test]
fn empty_arguments_ask_for_help() {
    assert_eq!(Command::parse(&args(&[])), Command::Help);
}

#[test]
fn memory_recent_defaults_and_malformed_limit_falls_back_to_help() {
    assert_eq!(
        Command::parse(&args(&["memory", "recent"])),
        Command::MemoryRecent { limit: 20 }
    );
    assert_eq!(
        Command::parse(&args(&["memory", "recent", "many"])),
        Command::Help
    );
}

#[test]
fn commands_map_to_requests() {
    assert_eq!(
        Command::MemoryPath("a".into(), "b".into()).request(),
        Some(IpcRequest::MemoryPath {
            source: "a".into(),
            target: "b".into()
        })
    );
    assert_eq!(Command::Version.request(), None);
    assert_eq!(Command::Help.request(), None);
}

#[test]
fn version_and_help_are_answered_locally() {
    assert_eq!(version_line("0.1.0"), "dendrite 0.1.0");
    assert_eq!(
        local_output(&Command::Version, "0.1.0"),
        Some("dendrite 0.1.0".to_string())
    );
    assert!(help("0.1.0").starts_with("Dendrite 0.1.0\n\nUsage:"));
    assert_eq!(local_output(&Command::Status, "0.1.0"), None);
}

#[test]
fn responses_render_as_text() {
    assert_eq!(
        render_response(&IpcResponse::GuardStatus(GuardStatusDto {
            trust_state: "trusted".into(),
            authority: "allowed".into(),
            findings_count: 2,
        })),
        "trust: trusted\nauthority: allowed\nintegrity findings: 2"
    );
    assert_eq!(
        render_response(&IpcResponse::MemoryPath {
            path: Some(MemoryPathDto {
                nodes: vec!["a".into(), "b".into()],
                relationships: vec!["rel".into()],
                score: 60,
            })
        }),
        "score=60\na -> b"
    );
    assert_eq!(
        render_response(&IpcResponse::MemoryPath { path: None }),
        "No path found."
    );
    assert_eq!(
        render_response(&IpcResponse::Error {
            message: "boom".into()
        }),
        "Error: boom"
    );
}
