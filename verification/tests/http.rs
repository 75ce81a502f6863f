use dendrite::daemon::engine::DaemonCore;
use dendrite::http::{
    admit_request, classify, hex, is_allowed_origin, parse_query, percent_decode, reason,
    response_head, route, HttpBody, HttpContext, HttpRouteError, Route,
};
use dendrite::protocol::ipc::CreateActionDto;
use dendrite::http::{empty_head, is_head_end, request_parts, error_response, trim};
use dendrite::daemon::engine::DaemonError;

#[test]
fn percent_decode_handles_node_ids() {
    assert_eq!(
        percent_decode("file%3A%2Ftmp%2Fexample.txt").unwrap(),
        "file:/tmp/example.txt"
    );
}

#[test]
fn query_parser_decodes_values() {
    let query = parse_query("source=process%3A1&target=threat%3Atest").unwrap();
    assert_eq!(query.get("source").unwrap(), "process:1");
    assert_eq!(query.get("target").unwrap(), "threat:test");
}

#[test]
fn percent_decode_translates_plus_and_rejects_bad_escapes() {
    assert_eq!(percent_decode("a+b%20c").unwrap(), "a b c");
    // A percent sign without two following bytes is kept as it stands.
    assert_eq!(percent_decode("bad%2").unwrap(), "bad%2");
    assert!(matches!(
        percent_decode("bad%zz1"),
        Err(HttpRouteError::BadRequest(ref m)) if m == "invalid percent encoding"
    ));
    assert!(matches!(
        percent_decode("%ff1"),
        Err(HttpRouteError::BadRequest(ref m)) if m == "query parameter is not UTF-8"
    ));
}

#[test]
fn query_parser_keeps_the_last_value_of_a_key() {
    let query = parse_query("limit=5&&limit=9&flag").unwrap();
    assert_eq!(query.get("limit").unwrap(), "9");
    assert_eq!(query.get("flag").unwrap(), "");
    assert!(query.get("missing").is_none());
}

#[test]
fn hex_digits_decode() {
    assert_eq!(hex(b'0'), Some(0));
    assert_eq!(hex(b'a'), Some(10));
    assert_eq!(hex(b'F'), Some(15));
    assert_eq!(hex(b'g'), None);
}

#[test]
fn requests_are_admitted_by_origin_and_size() {
    assert!(is_allowed_origin("http://localhost:5173"));
    assert!(!is_allowed_origin("http://evil.example"));
    assert_eq!(admit_request(None, 10), None);
    assert_eq!(admit_request(Some("http://127.0.0.1:5173"), 16384), None);
    assert_eq!(
        admit_request(Some("http://evil.example"), 10),
        Some((403, "origin is not allowed".to_string()))
    );
    assert_eq!(
        admit_request(None, 16385),
        Some((413, "request body is too large".to_string()))
    );
}

#[test]
fn response_head_names_status_and_length() {
    assert_eq!(reason(404), "Not Found");
    assert_eq!(
        response_head(200, 2, None),
        "HTTP/1.1 200 OK\r\nContent-Type: application/json; charset=utf-8\r\nContent-Length: 2\r\nCache-Control: no-store\r\nX-Content-Type-Options: nosniff\r\nConnection: close\r\n\r\n"
    );
    assert!(response_head(201, 0, Some("http://localhost:5173"))
        .ends_with("Access-Control-Allow-Origin: http://localhost:5173\r\nVary: Origin\r\n\r\n"));
}

#[test]
fn routes_are_classified_by_method_and_path() {
    assert!(matches!(classify("GET", "/api/v1/status"), Route::Status));
    assert!(matches!(classify("POST", "/api/v1/actions"), Route::CreateAction));
    assert!(matches!(
        classify("GET", "/api/v1/incidents/inc_00000001"),
        Route::Incident(ref id) if id == "inc_00000001"
    ));
    assert!(matches!(
        classify("POST", "/api/v1/actions/act_00000001/evaluate"),
        Route::EvaluateAction(ref id) if id == "act_00000001"
    ));
    assert!(matches!(classify("GET", "/api/v2/other"), Route::NotFound));
    assert!(matches!(classify("DELETE", "/api/v1/status"), Route::MethodNotAllowed));
}

fn context() -> HttpContext {
    HttpContext {
        version: "0.1.0".into(),
        socket_path: "/run/dendrite/dendrited.sock".into(),
        now: 10,
        memory_reachable: true,
    }
}

fn no_body() -> Result<CreateActionDto, String> {
    Err("no body".into())
}

#[test]
fn route_answers_status_and_rejects_unknown_paths() {
    let mut core = DaemonCore::open();
    match route(&mut core, &context(), "GET", "/api/v1/status", no_body()) {
        Ok(HttpBody::Status(status)) => {
            assert_eq!(status.version, "0.1.0");
            assert_eq!(status.observations_ingested, 0);
        }
        _ => panic!("status route must answer with the daemon status"),
    }
    assert!(matches!(
        route(&mut core, &context(), "GET", "/api/v1/nothing", no_body()),
        Err(HttpRouteError::NotFound(_))
    ));
    assert!(matches!(
        route(&mut core, &context(), "GET", "/api/v1/memory/path?source=a", no_body()),
        Err(HttpRouteError::BadRequest(ref m)) if m == "missing query parameter: target"
    ));
    assert!(matches!(
        route(&mut core, &context(), "POST", "/api/v1/actions", no_body()),
        Err(HttpRouteError::BadRequest(ref m)) if m == "invalid JSON body: no body"
    ));
}

#[test]
fn route_creates_a_proposal_for_an_open_incident() {
    let mut core = DaemonCore::open();
    core.debug_seed_incident(Some("http"), 5).unwrap();
    let body = Ok(CreateActionDto {
        incident_id: "inc_00000001".into(),
        action: "observe".into(),
        target: "process:1".into(),
    });
    match route(&mut core, &context(), "POST", "/api/v1/actions", body) {
        Ok(created) => {
            assert_eq!(created.status(), 201);
            match created {
                HttpBody::Created(detail) => {
                    assert_eq!(detail.proposal.id, "act_00000001");
                    assert_eq!(detail.proposal.status, "proposed");
                }
                _ => panic!("creation must answer with the created proposal"),
            }
        }
        Err(_) => panic!("creation must succeed for an open incident"),
    }
}

#[test]
fn request_head_reads_origin_and_length_in_any_case() {
    let mut head = empty_head();
    head.read_header("ORIGIN:  http://localhost:5173 \r\n");
    head.read_header("Content-Length: 42\r\n");
    head.read_header("X-Other: 7\r\n");
    head.read_header("no separator here\r\n");
    assert_eq!(head.origin.as_deref(), Some("http://localhost:5173"));
    assert_eq!(head.content_length, 42);
    head.read_header("content-length: many\r\n");
    assert_eq!(head.content_length, 0);
    assert!(is_head_end("\r\n"));
    assert!(is_head_end(""));
    assert!(!is_head_end("Host: x\r\n"));
    assert_eq!(
        request_parts("GET /api/v1/status HTTP/1.1\r\n"),
        ("GET".to_string(), "/api/v1/status".to_string())
    );
    assert_eq!(request_parts("   "), (String::new(), String::new()));
}

#[test]
fn refusals_map_to_statuses() {
    assert_eq!(
        error_response(&HttpRouteError::NotFound("gone".into())),
        (404, "gone".to_string())
    );
    assert_eq!(
        error_response(&HttpRouteError::BadRequest("bad".into())),
        (400, "bad".to_string())
    );
    assert_eq!(
        error_response(&HttpRouteError::MethodNotAllowed("no".into())),
        (405, "no".to_string())
    );
    assert_eq!(
        error_response(&HttpRouteError::Daemon(DaemonError::Debug("x".into()))),
        (500, "Debug(\"x\")".to_string())
    );
    assert_eq!(trim(" \t a b \r\n"), "a b");
    assert_eq!(trim("   "), "");
}

#[test]
fn health_reports_memory_error_when_the_memory_store_does_not_answer() {
    let mut core = DaemonCore::open();
    match route(&mut core, &context(), "GET", "/api/v1/health", no_body()) {
        Ok(HttpBody::Health(health)) => {
            assert_eq!(health.daemon, "ok");
            assert_eq!(health.memory, "ok");
            assert_eq!(health.guard, "trusted");
        }
        _ => panic!("health route must answer with the health report"),
    }
    let mut unreachable = context();
    unreachable.memory_reachable = false;
    match route(&mut core, &unreachable, "GET", "/api/v1/health", no_body()) {
        Ok(HttpBody::Health(health)) => assert_eq!(health.memory, "error"),
        _ => panic!("health route must answer with the health report"),
    }
}
