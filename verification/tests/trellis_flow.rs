use roblox_studio_mcp::trellis::settings_from;
use roblox_studio_mcp::trellis::{
    bearer, glb_payload, poll_outcome, run_url, status_url, submit_outcome, JobOutput, JobWait, RunResponse,
    StatusResponse, TrellisError, WaitAction,
};

#[test]
fn test_trellis_error_display() {
    assert_eq!(TrellisError::Http("connection failed".to_string()).message(), "HTTP error: connection failed");
    assert_eq!(
        TrellisError::Api { status: 401, message: "unauthorized".to_string() }.message(),
        "API error (401): unauthorized"
    );
    assert_eq!(TrellisError::JobFailed("GPU OOM".to_string()).message(), "Job failed: GPU OOM");
    assert_eq!(TrellisError::Timeout.message(), "Job timed out");
    assert_eq!(TrellisError::ParseError("invalid json".to_string()).message(), "Parse error: invalid json");
    assert_eq!(TrellisError::GlbParseError("invalid header".to_string()).message(), "GLB parse error: invalid header");
}

fn status(s: &str, output: Option<JobOutput>, error: Option<&str>) -> StatusResponse {
    StatusResponse { id: "job-123".to_string(), status: s.to_string(), output, error: error.map(|e| e.to_string()) }
}

fn output(glb: Option<&str>, error: Option<&str>) -> JobOutput {
    JobOutput { glb_base64: glb.map(|g| g.to_string()), vertex_count: Some(100), face_count: Some(50), error: error.map(|e| e.to_string()) }
}

#[test]
fn test_submit_job_success() {
    let r = submit_outcome(200, br#"{"id": "job-123", "status": "IN_QUEUE"}"#, Ok(RunResponse { id: "job-123".to_string(), status: "IN_QUEUE".to_string() }));
    assert!(r.is_ok());
    assert_eq!(r.unwrap(), "job-123");
}

#[test]
fn test_submit_job_api_error() {
    let r = submit_outcome(401, br#"{"error": "Unauthorized"}"#, Err("ignored".to_string()));
    assert!(matches!(r, Err(TrellisError::Api { status: 401, ref message }) if message == r#"{"error": "Unauthorized"}"#));
}

#[test]
fn submit_accepts_201_and_reports_parse_errors() {
    let r = submit_outcome(201, b"{}", Err("missing field `id`".to_string()));
    assert!(matches!(r, Err(TrellisError::ParseError(ref m)) if m == "missing field `id`"));
}

#[test]
fn test_wait_for_completion_success() {
    assert!(poll_outcome(200, b"", Ok(status("IN_PROGRESS", None, None))).is_none());
    let done = poll_outcome(200, b"", Ok(status("COMPLETED", Some(output(Some("dGVzdA=="), None)), None)));
    let out = done.unwrap().unwrap();
    assert_eq!(out.glb_base64, Some("dGVzdA==".to_string()));
}

#[test]
fn test_wait_for_completion_failed() {
    let r = poll_outcome(200, b"", Ok(status("FAILED", None, Some("GPU OOM"))));
    assert!(matches!(r, Some(Err(TrellisError::JobFailed(ref msg))) if msg == "GPU OOM"));
}

#[test]
fn failed_job_without_message_and_completed_without_output() {
    assert!(matches!(poll_outcome(200, b"", Ok(status("FAILED", None, None))), Some(Err(TrellisError::JobFailed(ref m))) if m == "Unknown error"));
    assert!(matches!(poll_outcome(200, b"", Ok(status("COMPLETED", None, None))), Some(Err(TrellisError::JobFailed(ref m))) if m == "No output in completed job"));
    assert!(matches!(poll_outcome(200, b"", Ok(status("COMPLETED", Some(output(None, Some("bad prompt"))), None))), Some(Err(TrellisError::JobFailed(ref m))) if m == "bad prompt"));
    assert!(poll_outcome(200, b"", Ok(status("SOMETHING_NEW", None, None))).is_none());
    assert!(matches!(poll_outcome(503, b"busy", Err(String::new())), Some(Err(TrellisError::Api { status: 503, ref message })) if message == "busy"));
}

#[test]
fn payload_is_base64_decoded() {
    assert_eq!(glb_payload(&output(Some("dGVzdA=="), None)).unwrap(), b"test".to_vec());
    assert!(matches!(glb_payload(&output(None, None)), Err(TrellisError::JobFailed(ref m)) if m == "No GLB data in response"));
    match glb_payload(&output(Some("not base64!"), None)) {
        Err(TrellisError::ParseError(m)) => assert!(m.starts_with("Base64 decode failed: ")),
        other => panic!("unexpected {:?}", other),
    }
}

#[test]
fn urls_and_header() {
    assert_eq!(run_url("https://api.runpod.ai/v2", "ep"), "https://api.runpod.ai/v2/ep/run");
    assert_eq!(status_url("https://api.runpod.ai/v2", "ep", "job-1"), "https://api.runpod.ai/v2/ep/status/job-1");
    assert_eq!(bearer("k"), "Bearer k");
}

/// Drive a wait over a sequence of status replies, as the client does.
fn run_wait(max: u32, replies: Vec<StatusResponse>) -> (Result<JobOutput, TrellisError>, usize) {
    let mut wait = JobWait::new(max);
    let mut replies = replies.into_iter();
    let mut polls = 0;
    loop {
        if let WaitAction::Finish(outcome) = wait.next_action() {
            return (outcome, polls);
        }
        polls += 1;
        let reply = replies.next().expect("a reply for every poll");
        if let Some(outcome) = wait.on_reply(poll_outcome(200, b"", Ok(reply))) {
            return (outcome, polls);
        }
    }
}

#[test]
fn wait_completes_after_progress() {
    let done = JobOutput {
        glb_base64: Some("dGVzdA==".to_string()),
        vertex_count: Some(100),
        face_count: Some(50),
        error: None,
    };
    let (r, polls) = run_wait(3, vec![status("IN_PROGRESS", None, None), status("COMPLETED", Some(done), None)]);
    assert_eq!(polls, 2);
    assert_eq!(r.unwrap().glb_base64, Some("dGVzdA==".to_string()));
}

#[test]
fn wait_stops_on_failure() {
    let (r, polls) = run_wait(3, vec![status("FAILED", None, Some("GPU OOM"))]);
    assert_eq!(polls, 1);
    assert!(matches!(r, Err(TrellisError::JobFailed(m)) if m == "GPU OOM"));
}

#[test]
fn wait_times_out_after_all_polls() {
    let queued = (0..3).map(|_| status("IN_QUEUE", None, None)).collect();
    let (r, polls) = run_wait(3, queued);
    assert_eq!(polls, 3);
    assert!(matches!(r, Err(TrellisError::Timeout)));
    let (r, polls) = run_wait(0, vec![]);
    assert_eq!(polls, 0);
    assert!(matches!(r, Err(TrellisError::Timeout)));
}

#[test]
fn settings_defaults_and_overrides() {
    let s = |v: &str| Some(v.to_string());
    assert!(settings_from(None, s("endpoint"), None, None, None).is_none());
    assert!(settings_from(s("key"), None, None, None, None).is_none());
    let d = settings_from(s("test-api-key"), s("test-endpoint"), None, None, None).unwrap();
    assert_eq!(d.api_key, "test-api-key");
    assert_eq!(d.endpoint_id, "test-endpoint");
    assert_eq!(d.base_url, "https://api.runpod.ai/v2");
    assert_eq!(d.max_poll_attempts, 120);
    assert_eq!(d.poll_interval_ms, 5000);
    let c = settings_from(s("custom-key"), s("custom-endpoint"), s("https://custom.api.com"), s("60"), s("3000")).unwrap();
    assert_eq!(c.base_url, "https://custom.api.com");
    assert_eq!(c.max_poll_attempts, 60);
    assert_eq!(c.poll_interval_ms, 3000);
    let bad = settings_from(s("key"), s("endpoint"), None, s("not-a-number"), s("99999999999999999999")).unwrap();
    assert_eq!(bad.max_poll_attempts, 120);
    assert_eq!(bad.poll_interval_ms, 5000);
    let plus = settings_from(s("key"), s("endpoint"), None, s("+7"), s("18446744073709551615")).unwrap();
    assert_eq!(plus.max_poll_attempts, 7);
    assert_eq!(plus.poll_interval_ms, u64::MAX);
}
