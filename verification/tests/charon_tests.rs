use luxifer::charon_server::{route, Route};
use luxifer::charon::{
    ack_confirms, http_body, http_request, record_received, record_upload, revisions_to_upload, validate_handshake,
    CharonHandshake, CharonSyncReport, HttpEndpoint, OutboxStatus, UploadRun,
};

#[test]
fn url_verlangt_http_und_reines_ziel() {
    assert!(HttpEndpoint::parse("https://localhost:3737").is_err());
    assert!(HttpEndpoint::parse("http://localhost:3737/pfad").is_err());
    assert_eq!(
        HttpEndpoint::parse("http://localhost:3737/").unwrap().authority,
        "localhost:3737"
    );
}

#[test]
fn url_without_port_gets_port_80() {
    assert_eq!(HttpEndpoint::parse("  http://charon.local  ").unwrap().authority, "charon.local:80");
    let e = HttpEndpoint::parse("localhost:3737").unwrap_err();
    assert_eq!(e.code(), "charon_url");
    assert_eq!(e.message(), "Charon-Adresse muss mit http:// beginnen.");
    let e = HttpEndpoint::parse("http://host/x").unwrap_err();
    assert_eq!(e.message(), "Charon-Adresse muss aus Host und optionalem Port bestehen.");
    let e = HttpEndpoint::parse("http://").unwrap_err();
    assert_eq!(e.message(), "Charon-Adresse muss mit http:// beginnen.");
}

fn handshake(server: &str, protocol_version: u32) -> CharonHandshake {
    CharonHandshake {
        server: server.to_string(),
        server_version: "0.1.0".to_string(),
        protocol_version,
        instance_id: "local-test".to_string(),
        capabilities: vec!["health".to_string(), "handshake".to_string()],
    }
}

#[test]
fn handshake_must_be_charon_protocol_1() {
    assert!(validate_handshake(&handshake("charon", 1)).is_ok());
    let e = validate_handshake(&handshake("charon", 2)).unwrap_err();
    assert_eq!(e.code(), "charon_protocol");
    assert_eq!(e.message(), "Charon-Protokoll ist nicht kompatibel (erwartet 1, erhalten 2).");
    assert!(validate_handshake(&handshake("other", 1)).is_err());
}

#[test]
fn only_revisions_not_uploaded_are_sent() {
    let statuses = vec![
        OutboxStatus::Uploaded,
        OutboxStatus::Pending,
        OutboxStatus::Failed,
        OutboxStatus::Uploaded,
    ];
    assert_eq!(revisions_to_upload(&statuses), vec![1, 2]);
}

#[test]
fn upload_report_counts() {
    let mut report = CharonSyncReport::new();
    assert_eq!(record_upload(&mut report, true), OutboxStatus::Uploaded);
    assert_eq!((report.uploaded, report.pending), (1, 0));
    assert_eq!(record_upload(&mut report, false), OutboxStatus::Failed);
    assert_eq!((report.uploaded, report.pending), (1, 1));
    record_received(&mut report, true);
    record_received(&mut report, false);
    assert_eq!(report.received, 1);
}

#[test]
fn acknowledgement_must_name_revision_and_hash() {
    assert!(ack_confirms("r1", "h1", "r1", "h1"));
    assert!(!ack_confirms("r1", "h2", "r1", "h1"));
    assert!(!ack_confirms("r2", "h1", "r1", "h1"));
}

#[test]
fn server_routes_by_method_and_path() {
    assert_eq!(route("GET /health HTTP/1.1\r\nHost: x\r\n\r\n"), Route::Health);
    assert_eq!(route("GET /api/v1/handshake HTTP/1.1\r\n"), Route::Handshake);
    assert_eq!(route("GET /other HTTP/1.1\r\n"), Route::NotFound);
    assert_eq!(route("POST /health HTTP/1.1\r\n"), Route::MethodNotAllowed);
    assert_eq!(route(""), Route::MethodNotAllowed);
    assert_eq!(route("GET\n/health"), Route::NotFound);
    assert_eq!(route("  GET   /health"), Route::Health);
}

fn handshake_from_json(body: &str) -> CharonHandshake {
    let v: serde_json::Value = serde_json::from_str(body).unwrap();
    CharonHandshake {
        server: v["server"].as_str().unwrap().to_string(),
        server_version: v["server_version"].as_str().unwrap().to_string(),
        protocol_version: v["protocol_version"].as_u64().unwrap() as u32,
        instance_id: v["instance_id"].as_str().unwrap().to_string(),
        capabilities: v["capabilities"]
            .as_array()
            .unwrap()
            .iter()
            .map(|c| c.as_str().unwrap().to_string())
            .collect(),
    }
}

#[test]
fn parser_akzeptiert_gueltigen_handshake() {
    let response = b"HTTP/1.1 200 OK\r\nContent-Type: application/json\r\n\r\n{\"server\":\"charon\",\"server_version\":\"0.1.0\",\"protocol_version\":1,\"instance_id\":\"local-test\",\"capabilities\":[\"health\",\"handshake\"]}";
    let body = http_body(response).unwrap();
    let handshake = handshake_from_json(&body);
    validate_handshake(&handshake).unwrap();
    assert_eq!(handshake.server_version, "0.1.0");
    assert!(handshake.capabilities.contains(&"handshake".into()));
}

#[test]
fn http_response_framing_errors() {
    let e = http_body(b"HTTP/1.1 404 Not Found\r\n\r\n{}").unwrap_err();
    assert_eq!(e.code(), "charon_status");
    assert_eq!(e.message(), "Charon antwortet mit HTTP/1.1 404 Not Found.");
    let e = http_body(b"HTTP/1.1 200 OK\r\n{}").unwrap_err();
    assert_eq!(e.code(), "charon_response");
    assert_eq!(e.message(), "Charon hat keine gültige HTTP-Antwort geliefert.");
    let e = http_body(&[0xff, 0xfe, 0x00]).unwrap_err();
    assert_eq!(e.code(), "charon_response");
    assert_eq!(e.message(), "Charon hat ungültige Daten geliefert.");
    assert!(e.details().is_some());
    assert_eq!(http_body(b"HTTP/1.1 200 OK\r\n\r\n").unwrap(), "");
}

#[test]
fn request_names_body_length_in_bytes() {
    let ep = HttpEndpoint::parse("http://localhost:3737").unwrap();
    let r = http_request(&ep, "POST", "/api/v1/projects/revisions", "{\"n\":\"Grüße\"}");
    assert_eq!(
        r,
        "POST /api/v1/projects/revisions HTTP/1.1\r\nHost: localhost:3737\r\nContent-Type: application/json\r\nContent-Length: 15\r\nConnection: close\r\n\r\n{\"n\":\"Grüße\"}"
    );
    let g = http_request(&ep, "GET", "/api/v1/handshake", "");
    assert!(g.starts_with("GET /api/v1/handshake HTTP/1.1\r\n"));
    assert!(g.ends_with("Content-Length: 0\r\nConnection: close\r\n\r\n"));
}

#[test]
fn hochladelauf_endet_beim_ersten_fehler() {
    let mut run = UploadRun::start(&vec![
        OutboxStatus::Pending,
        OutboxStatus::Uploaded,
        OutboxStatus::Failed,
        OutboxStatus::Pending,
    ]);
    assert_eq!(run.next_upload(), Some(0));
    assert_eq!(run.finish_upload(true), OutboxStatus::Uploaded);
    assert_eq!(run.next_upload(), Some(2));
    assert_eq!(run.finish_upload(false), OutboxStatus::Failed);
    assert_eq!(run.next_upload(), None);
    assert_eq!(run.report, CharonSyncReport { uploaded: 1, pending: 1, received: 0 });
}

#[test]
fn hochladelauf_ohne_fehler_zaehlt_alle() {
    let mut run = UploadRun::start(&vec![OutboxStatus::Pending, OutboxStatus::Failed]);
    while run.next_upload().is_some() {
        run.finish_upload(true);
    }
    assert_eq!(run.report, CharonSyncReport { uploaded: 2, pending: 0, received: 0 });
    assert!(!run.stopped);
}
