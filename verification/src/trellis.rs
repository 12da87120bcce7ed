//! Text-to-3D generation through a RunPod serverless job: the decisions on
//! each API reply and the decoding of the generated mesh payload.
//!
//! The HTTP exchange, the waits between polls and the reading of JSON replies
//! are the caller's; each reply is handed here as its status code, its body
//! and its parsed form.
use base64::Engine;
use vstd::prelude::*;
use crate::text::{
    chars_of, decimal, decimal_exec, from_utf8_lossy, parse_u32, parse_u32_exec, parse_u64, parse_u64_exec, push_chars,
    push_str, str_eq, string_from_chars, utf8_lossy,
};

verus! {

/// TRELLIS client errors.
#[derive(Debug)]
pub enum TrellisError {
    /// HTTP request failed.
    Http(String),
    /// API returned an error.
    Api { status: u16, message: String },
    /// Job failed during generation.
    JobFailed(String),
    /// Job timed out waiting for completion.
    Timeout,
    /// Failed to parse response.
    ParseError(String),
    /// GLB parsing failed.
    GlbParseError(String),
}

pub enum TrellisErrorModel {
    Http(Seq<char>),
    Api { status: u16, message: Seq<char> },
    JobFailed(Seq<char>),
    Timeout,
    ParseError(Seq<char>),
    GlbParseError(Seq<char>),
}

impl View for TrellisError {
    type V = TrellisErrorModel;

    open spec fn view(&self) -> TrellisErrorModel {
        match *self {
            TrellisError::Http(m) => TrellisErrorModel::Http(m@),
            TrellisError::Api { status, message } => TrellisErrorModel::Api { status, message: message@ },
            TrellisError::JobFailed(m) => TrellisErrorModel::JobFailed(m@),
            TrellisError::Timeout => TrellisErrorModel::Timeout,
            TrellisError::ParseError(m) => TrellisErrorModel::ParseError(m@),
            TrellisError::GlbParseError(m) => TrellisErrorModel::GlbParseError(m@),
        }
    }
}

/// The text an error reads as.
pub open spec fn trellis_error_text(e: TrellisErrorModel) -> Seq<char> {
    match e {
        TrellisErrorModel::Http(m) => "HTTP error: "@ + m,
        TrellisErrorModel::Api { status, message } => "API error ("@ + decimal(status as nat) + "): "@ + message,
        TrellisErrorModel::JobFailed(m) => "Job failed: "@ + m,
        TrellisErrorModel::Timeout => "Job timed out"@,
        TrellisErrorModel::ParseError(m) => "Parse error: "@ + m,
        TrellisErrorModel::GlbParseError(m) => "GLB parse error: "@ + m,
    }
}

impl TrellisError {
    /// The error's text (what `Display` would print).
    pub fn message(&self) -> (s: String)
        ensures
            s@ == trellis_error_text(self@),
    {
        let mut v: Vec<char> = Vec::new();
        match self {
            TrellisError::Http(m) => {
                push_str(&mut v, "HTTP error: ");
                push_str(&mut v, m.as_str());
            },
            TrellisError::Api { status, message } => {
                push_str(&mut v, "API error (");
                let d = decimal_exec(*status as u128);
                push_chars(&mut v, &d);
                push_str(&mut v, "): ");
                push_str(&mut v, message.as_str());
            },
            TrellisError::JobFailed(m) => {
                push_str(&mut v, "Job failed: ");
                push_str(&mut v, m.as_str());
            },
            TrellisError::Timeout => {
                push_str(&mut v, "Job timed out");
            },
            TrellisError::ParseError(m) => {
                push_str(&mut v, "Parse error: ");
                push_str(&mut v, m.as_str());
            },
            TrellisError::GlbParseError(m) => {
                push_str(&mut v, "GLB parse error: ");
                push_str(&mut v, m.as_str());
            },
        }
        string_from_chars(&v)
    }
}

/// Reply of the job submission endpoint.
#[derive(Debug)]
pub struct RunResponse {
    pub id: String,
    pub status: String,
}

/// Output of a finished job.
#[derive(Debug)]
pub struct JobOutput {
    pub glb_base64: Option<String>,
    pub vertex_count: Option<u32>,
    pub face_count: Option<u32>,
    pub error: Option<String>,
}

/// Reply of the job status endpoint.
#[derive(Debug)]
pub struct StatusResponse {
    pub id: String,
    pub status: String,
    pub output: Option<JobOutput>,
    pub error: Option<String>,
}

/// The API's base URL when none is configured.
pub open spec fn default_base_url() -> Seq<char> {
    "https://api.runpod.ai/v2"@
}

/// Status requests allowed when none is configured (10 minutes at 5 s).
pub const DEFAULT_MAX_POLL_ATTEMPTS: u32 = 120;

/// Milliseconds between status requests when none is configured.
pub const DEFAULT_POLL_INTERVAL_MS: u64 = 5000;

/// The client's settings, as configured.
#[derive(Debug)]
pub struct TrellisSettings {
    pub api_key: String,
    pub endpoint_id: String,
    pub base_url: String,
    pub max_poll_attempts: u32,
    pub poll_interval_ms: u64,
}

pub open spec fn opt_string_view(o: Option<String>) -> Option<Seq<char>> {
    match o {
        Some(s) => Some(s@),
        None => None,
    }
}

/// A configured number, or the default when it is missing or not a number.
pub open spec fn u32_or(v: Option<Seq<char>>, default: u32) -> u32 {
    match v {
        Some(t) => match parse_u32(t) {
            Some(n) => n,
            None => default,
        },
        None => default,
    }
}

pub open spec fn u64_or(v: Option<Seq<char>>, default: u64) -> u64 {
    match v {
        Some(t) => match parse_u64(t) {
            Some(n) => n,
            None => default,
        },
        None => default,
    }
}

/// The settings from the configured values (`RUNPOD_API_KEY`,
/// `TRELLIS_ENDPOINT_ID`, `RUNPOD_BASE_URL`, `TRELLIS_MAX_POLL_ATTEMPTS`,
/// `TRELLIS_POLL_INTERVAL_MS`, each `None` when unset): the API key and the
/// endpoint are required; the others fall back to their defaults when unset
/// or, for the numbers, unreadable.
pub fn settings_from(
    api_key: Option<String>,
    endpoint_id: Option<String>,
    base_url: Option<String>,
    max_poll_attempts: Option<String>,
    poll_interval_ms: Option<String>,
) -> (r: Option<TrellisSettings>)
    ensures
        (r is Some) == (api_key is Some && endpoint_id is Some),
        r matches Some(c) ==> {
            &&& Some(c.api_key@) == opt_string_view(api_key)
            &&& Some(c.endpoint_id@) == opt_string_view(endpoint_id)
            &&& c.base_url@ == match base_url {
                Some(b) => b@,
                None => default_base_url(),
            }
            &&& c.max_poll_attempts == u32_or(opt_string_view(max_poll_attempts), DEFAULT_MAX_POLL_ATTEMPTS)
            &&& c.poll_interval_ms == u64_or(opt_string_view(poll_interval_ms), DEFAULT_POLL_INTERVAL_MS)
        },
{
    let api_key = match api_key {
        Some(k) => k,
        None => return None,
    };
    let endpoint_id = match endpoint_id {
        Some(e) => e,
        None => return None,
    };
    let base_url = match base_url {
        Some(b) => b,
        None => String::from_str("https://api.runpod.ai/v2"),
    };
    let max_poll_attempts = match max_poll_attempts {
        Some(t) => match parse_u32_exec(&chars_of(t.as_str())) {
            Some(n) => n,
            None => DEFAULT_MAX_POLL_ATTEMPTS,
        },
        None => DEFAULT_MAX_POLL_ATTEMPTS,
    };
    let poll_interval_ms = match poll_interval_ms {
        Some(t) => match parse_u64_exec(&chars_of(t.as_str())) {
            Some(n) => n,
            None => DEFAULT_POLL_INTERVAL_MS,
        },
        None => DEFAULT_POLL_INTERVAL_MS,
    };
    Some(TrellisSettings { api_key, endpoint_id, base_url, max_poll_attempts, poll_interval_ms })
}

/// The submission URL of an endpoint.
pub fn run_url(base_url: &str, endpoint_id: &str) -> (s: String)
    ensures
        s@ == base_url@ + "/"@ + endpoint_id@ + "/run"@,
{
    let mut v: Vec<char> = Vec::new();
    push_str(&mut v, base_url);
    push_str(&mut v, "/");
    push_str(&mut v, endpoint_id);
    push_str(&mut v, "/run");
    string_from_chars(&v)
}

/// The status URL of a job.
pub fn status_url(base_url: &str, endpoint_id: &str, job_id: &str) -> (s: String)
    ensures
        s@ == base_url@ + "/"@ + endpoint_id@ + "/status/"@ + job_id@,
{
    let mut v: Vec<char> = Vec::new();
    push_str(&mut v, base_url);
    push_str(&mut v, "/");
    push_str(&mut v, endpoint_id);
    push_str(&mut v, "/status/");
    push_str(&mut v, job_id);
    string_from_chars(&v)
}

/// The authorization header value for an API key.
pub fn bearer(api_key: &str) -> (s: String)
    ensures
        s@ == "Bearer "@ + api_key@,
{
    let mut v: Vec<char> = Vec::new();
    push_str(&mut v, "Bearer ");
    push_str(&mut v, api_key);
    string_from_chars(&v)
}

/// The job id from the submission reply: the status must be 200 or 201 (else
/// the body, read lossily, is the API error), and the body must parse.
pub fn submit_outcome(http_status: u16, body: &[u8], parsed: Result<RunResponse, String>) -> (r: Result<String, TrellisError>)
    ensures
        http_status != 200 && http_status != 201 ==> (r matches Err(e) && e@ == (TrellisErrorModel::Api {
            status: http_status,
            message: utf8_lossy(body@),
        })),
        http_status == 200 || http_status == 201 ==> match parsed {
            Err(m) => r matches Err(e) && e@ == TrellisErrorModel::ParseError(m@),
            Ok(resp) => r matches Ok(id) && id@ == resp.id@,
        },
{
    if http_status != 200 && http_status != 201 {
        return Err(TrellisError::Api { status: http_status, message: from_utf8_lossy(body) });
    }
    match parsed {
        Err(m) => Err(TrellisError::ParseError(m)),
        Ok(resp) => Ok(resp.id),
    }
}

/// What a status reply means for the wait.
pub open spec fn status_kind(s: Seq<char>) -> int {
    if s == "COMPLETED"@ {
        0
    } else if s == "FAILED"@ {
        1
    } else {
        2
    }
}

/// The decision on one status reply: `None` to keep polling (queued, in
/// progress, or an unknown status), else the job's outcome.
pub fn poll_outcome(http_status: u16, body: &[u8], parsed: Result<StatusResponse, String>) -> (r: Option<Result<JobOutput, TrellisError>>)
    ensures
        http_status != 200 ==> (r matches Some(Err(e)) && e@ == (TrellisErrorModel::Api {
            status: http_status,
            message: utf8_lossy(body@),
        })),
        http_status == 200 ==> match parsed {
            Err(m) => r matches Some(Err(e)) && e@ == TrellisErrorModel::ParseError(m@),
            Ok(st) => if status_kind(st.status@) == 0 {
                match st.output {
                    None => r matches Some(Err(e)) && e@ == TrellisErrorModel::JobFailed(
                        "No output in completed job"@,
                    ),
                    Some(out) => match out.error {
                        Some(err) => r matches Some(Err(e)) && e@ == TrellisErrorModel::JobFailed(err@),
                        None => r matches Some(Ok(o)) && o.glb_base64 == out.glb_base64
                            && o.vertex_count == out.vertex_count && o.face_count == out.face_count
                            && o.error is None,
                    },
                }
            } else if status_kind(st.status@) == 1 {
                r matches Some(Err(e)) && e@ == TrellisErrorModel::JobFailed(
                    match st.error {
                        Some(m) => m@,
                        None => "Unknown error"@,
                    },
                )
            } else {
                r is None
            },
        },
{
    if http_status != 200 {
        return Some(Err(TrellisError::Api { status: http_status, message: from_utf8_lossy(body) }));
    }
    let st = match parsed {
        Err(m) => {
            return Some(Err(TrellisError::ParseError(m)));
        },
        Ok(st) => st,
    };
    if str_eq(st.status.as_str(), "COMPLETED") {
        match st.output {
            None => Some(Err(TrellisError::JobFailed(String::from_str("No output in completed job")))),
            Some(out) => match out.error {
                Some(err) => Some(Err(TrellisError::JobFailed(err))),
                None => Some(Ok(out)),
            },
        }
    } else if str_eq(st.status.as_str(), "FAILED") {
        let msg = match st.error {
            Some(m) => m,
            None => String::from_str("Unknown error"),
        };
        Some(Err(TrellisError::JobFailed(msg)))
    } else {
        None
    }
}

#[verifier::external_type_specification]
#[verifier::external_body]
pub struct ExDecodeError(base64::DecodeError);

/// What standard (padded) base64 decoding makes of a text, `None` where it
/// is not valid base64.
pub uninterp spec fn base64_standard_decode(input: Seq<char>) -> Option<Seq<u8>>;

/// `base64::engine::general_purpose::STANDARD.decode`.
#[verifier::external_body]
fn base64_decode(input: &str) -> (r: Result<Vec<u8>, base64::DecodeError>)
    ensures
        match r {
            Ok(v) => base64_standard_decode(input@) == Some(v@),
            Err(_) => base64_standard_decode(input@) is None,
        },
{
    base64::engine::general_purpose::STANDARD.decode(input)
}

/// The text of a base64 decoding error; nothing is stated of it.
#[verifier::external_body]
fn decode_error_text(e: &base64::DecodeError) -> (s: String) {
    e.to_string()
}

/// A wait for a job to finish: the status requests made so far, of the
/// number allowed.
#[derive(Debug)]
pub struct JobWait {
    polls: u32,
    max_polls: u32,
}

/// What the waiter does next.
#[derive(Debug)]
pub enum WaitAction {
    /// Request the job's status.
    Poll,
    /// Stop waiting, with this outcome.
    Finish(Result<JobOutput, TrellisError>),
}

impl JobWait {
    pub closed spec fn polls_made(&self) -> nat {
        self.polls as nat
    }

    pub closed spec fn poll_limit(&self) -> nat {
        self.max_polls as nat
    }

    /// No more requests are made than allowed.
    pub closed spec fn wf(&self) -> bool {
        self.polls <= self.max_polls
    }

    /// A wait that allows `max_polls` status requests.
    pub fn new(max_polls: u32) -> (w: Self)
        ensures
            w.wf(),
            w.polls_made() == 0,
            w.poll_limit() == max_polls,
    {
        JobWait { polls: 0, max_polls }
    }

    /// Poll while requests remain; once all are spent, the job timed out.
    pub fn next_action(&self) -> (a: WaitAction)
        requires
            self.wf(),
        ensures
            self.polls_made() < self.poll_limit() ==> a is Poll,
            self.polls_made() >= self.poll_limit() ==> (a matches WaitAction::Finish(Err(e)) && e@
                == TrellisErrorModel::Timeout),
    {
        if self.polls < self.max_polls {
            WaitAction::Poll
        } else {
            WaitAction::Finish(Err(TrellisError::Timeout))
        }
    }

    /// Count a status reply, given the decision on it (`poll_outcome`): the
    /// wait ends with a decided outcome; on `None` the waiter sleeps and asks
    /// `next_action` again.
    pub fn on_reply(&mut self, outcome: Option<Result<JobOutput, TrellisError>>) -> (r: Option<
        Result<JobOutput, TrellisError>,
    >)
        requires
            old(self).wf(),
            old(self).polls_made() < old(self).poll_limit(),
        ensures
            final(self).wf(),
            final(self).polls_made() == old(self).polls_made() + 1,
            final(self).poll_limit() == old(self).poll_limit(),
            r == outcome,
    {
        self.polls = self.polls + 1;
        outcome
    }
}

/// A run of a wait from `polls` requests made, of `limit` allowed, as
/// `next_action` and `on_reply` take it, over the decisions `ds` on the
/// successive replies (`poll_outcome`; `None` to keep waiting): the index of
/// the reply that ended it (`None` for a timeout), and the requests made.
pub open spec fn wait_run(polls: int, limit: int, ds: Seq<Option<Result<JobOutput, TrellisError>>>) -> (
    Option<int>,
    int,
)
    decreases limit - polls,
{
    if polls >= limit || polls < 0 || polls >= ds.len() {
        (None, polls)
    } else if ds[polls] is Some {
        (Some(polls), polls + 1)
    } else {
        wait_run(polls + 1, limit, ds)
    }
}

/// Whether none of the replies before `i` decided the wait.
pub open spec fn undecided_before(ds: Seq<Option<Result<JobOutput, TrellisError>>>, i: int) -> bool {
    forall|j: int| 0 <= j < i ==> (#[trigger] ds[j]) is None
}

/// Over a whole wait that allows `n` requests, with a reply to each: the
/// wait ends at the first reply that decides it, after one request per reply
/// up to it; when none of the first `n` replies decides it, it ends in a
/// timeout after exactly `n` requests.
pub proof fn law_wait_run(n: int, ds: Seq<Option<Result<JobOutput, TrellisError>>>, from: int)
    requires
        0 <= from <= n <= ds.len(),
        undecided_before(ds, from),
    ensures
        ({
            let (end, polls) = wait_run(from, n, ds);
            &&& end matches Some(i) ==> i == polls - 1 && 0 <= i < n && ds[i] is Some && undecided_before(ds, i)
            &&& end is None ==> polls == n && undecided_before(ds, n)
        }),
    decreases n - from,
{
    if from < n && ds[from] is None {
        assert(undecided_before(ds, from + 1)) by {
            assert forall|j: int| 0 <= j < from + 1 implies (#[trigger] ds[j]) is None by {
                if j < from {
                    assert(ds[j] is None);
                }
            }
        }
        law_wait_run(n, ds, from + 1);
    }
}

/// The GLB bytes a finished job carries: its base64 payload, decoded.
pub fn glb_payload(output: &JobOutput) -> (r: Result<Vec<u8>, TrellisError>)
    ensures
        match output.glb_base64 {
            None => r matches Err(e) && e@ == TrellisErrorModel::JobFailed("No GLB data in response"@),
            Some(b) => match base64_standard_decode(b@) {
                Some(bytes) => r matches Ok(v) && v@ == bytes,
                None => r matches Err(e) && e@ matches TrellisErrorModel::ParseError(m) && exists|t: Seq<char>|
                    m == "Base64 decode failed: "@ + t,
            },
        },
{
    let b = match &output.glb_base64 {
        None => {
            return Err(TrellisError::JobFailed(String::from_str("No GLB data in response")));
        },
        Some(b) => b,
    };
    match base64_decode(b.as_str()) {
        Ok(v) => Ok(v),
        Err(e) => {
            let text = decode_error_text(&e);
            let mut v: Vec<char> = Vec::new();
            push_str(&mut v, "Base64 decode failed: ");
            push_str(&mut v, text.as_str());
            assert(v@ == "Base64 decode failed: "@ + text@);
            Err(TrellisError::ParseError(string_from_chars(&v)))
        },
    }
}

} // verus!
