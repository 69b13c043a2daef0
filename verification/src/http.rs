//! The streaming HTTP client's decisions: the timeouts a policy sets, and
//! the id a stream is known by. The connection itself is the host's work.
use vstd::prelude::*;
use crate::error::UnifiedError;
use crate::ipc::TimeoutPolicy;
use crate::text::{decimal, decimal_text, owned, push_str, string_of};

verus! {

/// The timeouts a policy sets, in milliseconds: the wait for the first
/// answer, and the wait between chunks; none for an infinite policy.
pub fn get_timeout_values(policy: &TimeoutPolicy) -> (r: (Option<u64>, Option<u64>))
    ensures
        match policy {
            TimeoutPolicy::Dynamic { heartbeat_timeout_ms, max_silent_wait_ms } => r == (
                Some(*max_silent_wait_ms),
                Some(*heartbeat_timeout_ms),
            ),
            TimeoutPolicy::Infinite => r == (None::<u64>, None::<u64>),
        },
{
    match policy {
        TimeoutPolicy::Dynamic { heartbeat_timeout_ms, max_silent_wait_ms } => (
            Some(*max_silent_wait_ms),
            Some(*heartbeat_timeout_ms),
        ),
        TimeoutPolicy::Infinite => (None, None),
    }
}

/// An id made of the microseconds since the epoch.
pub fn uuid_like_id(epoch_micros: u128) -> (r: String)
    ensures
        r@ == decimal(epoch_micros as nat),
{
    decimal_text(epoch_micros)
}

/// The id of a stream opened at `epoch_micros`.
pub fn stream_id(epoch_micros: u128) -> (r: String)
    ensures
        r@ == "http_stream_"@ + decimal(epoch_micros as nat),
{
    let mut b: Vec<char> = Vec::new();
    push_str(&mut b, "http_stream_");
    let d = uuid_like_id(epoch_micros);
    push_str(&mut b, d.as_str());
    string_of(b.as_slice())
}

/// The network subsystem of the host.
pub struct HttpManager;

/// The error of a response whose status is not a success.
pub fn status_error(status: &str) -> (r: String)
    ensures
        r@ == "HTTP status error: "@ + status@,
{
    let mut b: Vec<char> = Vec::new();
    push_str(&mut b, "HTTP status error: ");
    push_str(&mut b, status);
    string_of(b.as_slice())
}

/// What `String::from_utf8_lossy` makes of `b`: its UTF-8 decoded, each
/// invalid sequence replaced by U+FFFD.
pub uninterp spec fn utf8_lossy(b: Seq<u8>) -> Seq<char>;

/// `String::from_utf8_lossy`. Claimed: a function of the bytes alone,
/// named [`utf8_lossy`]; how std splits invalid sequences is left unsaid.
#[verifier::external_body]
fn lossy_text(b: &[u8]) -> (r: String)
    ensures
        r@ == utf8_lossy(b@),
{
    String::from_utf8_lossy(b).into_owned()
}

/// Whether `c` may stand in an HTTP header name: a token character of
/// RFC 9110 (letters, digits and ``!#$%&'*+-.^_`|~``).
pub open spec fn is_token_char(c: char) -> bool {
    ('a' <= c && c <= 'z') || ('A' <= c && c <= 'Z') || ('0' <= c && c <= '9') || c == '!' || c == '#'
        || c == '$' || c == '%' || c == '&' || c == '\'' || c == '*' || c == '+' || c == '-' || c == '.'
        || c == '^' || c == '_' || c == '`' || c == '|' || c == '~'
}

/// The error text when `k` is not a valid HTTP header name, none when it
/// is: a name is one to 65535 token characters.
pub open spec fn header_name_error(k: Seq<char>) -> Option<Seq<char>> {
    if 0 < k.len() <= 65535 && forall|i: int| 0 <= i < k.len() ==> is_token_char(#[trigger] k[i]) {
        None
    } else {
        Some("invalid HTTP header name"@)
    }
}

/// Whether `c` may stand in an HTTP header value: a tab, or any character
/// from the space on but DEL.
pub open spec fn is_value_char(c: char) -> bool {
    c == '\t' || (c >= ' ' && c != '\x7f')
}

/// The error text when `v` is not a valid HTTP header value, none when it
/// is.
pub open spec fn header_value_error(v: Seq<char>) -> Option<Seq<char>> {
    if forall|i: int| 0 <= i < v.len() ==> is_value_char(#[trigger] v[i]) {
        None
    } else {
        Some("failed to parse header value"@)
    }
}

/// `reqwest::header::HeaderName::from_bytes` (http's `HeaderName`) on the
/// bytes of `k`. Claimed, as http's `parse_hdr` and `HEADER_CHARS` table
/// show: a name of one to 65535 bytes, each a token character (upper case
/// allowed), is accepted; anything else is refused with the text
/// `invalid HTTP header name`. A character outside ASCII gives bytes the
/// table refuses.
#[verifier::external_body]
fn check_header_name(k: &str) -> (r: Option<String>)
    ensures
        match r {
            Some(e) => header_name_error(k@) == Some(e@),
            None => header_name_error(k@) is None,
        },
{
    reqwest::header::HeaderName::from_bytes(k.as_bytes()).err().map(|e| e.to_string())
}

/// `reqwest::header::HeaderValue::from_str` (http's `HeaderValue`) on `v`.
/// Claimed, as http's `is_valid` shows: every byte must be a tab or at
/// least 32 and not 127 (so every character outside ASCII passes), else
/// the value is refused with the text `failed to parse header value`.
#[verifier::external_body]
fn check_header_value(v: &str) -> (r: Option<String>)
    ensures
        match r {
            Some(e) => header_value_error(v@) == Some(e@),
            None => header_value_error(v@) is None,
        },
{
    reqwest::header::HeaderValue::from_str(v).err().map(|e| e.to_string())
}

pub open spec fn pair_views(h: Seq<(String, String)>) -> Seq<(Seq<char>, Seq<char>)> {
    h.map_values(|p: (String, String)| (p.0@, p.1@))
}

/// The first problem with `headers`, looked at in order: a name, then its
/// value; none when every pair is valid.
pub open spec fn header_problem(h: Seq<(Seq<char>, Seq<char>)>) -> Option<Seq<char>>
    decreases h.len(),
{
    if h.len() == 0 {
        None
    } else if header_name_error(h[0].0) is Some {
        Some("Invalid header name: "@ + header_name_error(h[0].0)->0)
    } else if header_value_error(h[0].1) is Some {
        Some("Invalid header value: "@ + header_value_error(h[0].1)->0)
    } else {
        header_problem(h.drop_first())
    }
}

/// Checks the headers of a request before the stream is opened: the first
/// invalid name or value, in order, is an L1 error of category `Http`.
pub fn validate_headers(headers: &Vec<(String, String)>) -> (r: Result<(), UnifiedError>)
    ensures
        match header_problem(pair_views(headers@)) {
            None => r is Ok,
            Some(m) => r matches Err(UnifiedError::L1 { message, category }) && message@ == m && category@
                == "Http"@,
        },
{
    let ghost hv = pair_views(headers@);
    let mut i: usize = 0;
    assert(hv.skip(0) =~= hv);
    while i < headers.len()
        invariant
            i <= headers@.len(),
            hv == pair_views(headers@),
            header_problem(hv) == header_problem(hv.skip(i as int)),
        decreases headers@.len() - i,
    {
        assert(hv.skip(i as int)[0] == (headers@[i as int].0@, headers@[i as int].1@));
        assert(hv.skip(i as int).drop_first() =~= hv.skip(i + 1));
        match check_header_name(headers[i].0.as_str()) {
            Some(e) => {
                let mut b: Vec<char> = Vec::new();
                push_str(&mut b, "Invalid header name: ");
                push_str(&mut b, e.as_str());
                let m = string_of(b.as_slice());
                return Err(UnifiedError::l1(m.as_str(), "Http"));
            },
            None => {},
        }
        match check_header_value(headers[i].1.as_str()) {
            Some(e) => {
                let mut b: Vec<char> = Vec::new();
                push_str(&mut b, "Invalid header value: ");
                push_str(&mut b, e.as_str());
                let m = string_of(b.as_slice());
                return Err(UnifiedError::l1(m.as_str(), "Http"));
            },
            None => {},
        }
        i = i + 1;
    }
    assert(hv.skip(i as int) =~= Seq::<(Seq<char>, Seq<char>)>::empty());
    Ok(())
}

/// The pairs whose name and value are both valid, in order; the others are
/// dropped without a word.
pub open spec fn usable(h: Seq<(Seq<char>, Seq<char>)>) -> Seq<(Seq<char>, Seq<char>)>
    decreases h.len(),
{
    if h.len() == 0 {
        Seq::empty()
    } else {
        usable(h.drop_last()) + if header_name_error(h.last().0) is None && header_value_error(h.last().1) is None {
            seq![h.last()]
        } else {
            Seq::empty()
        }
    }
}

/// The headers a module's request is sent with, as [`usable`] says.
pub fn usable_headers(headers: &Vec<(String, String)>) -> (r: Vec<(String, String)>)
    ensures
        pair_views(r@) == usable(pair_views(headers@)),
{
    let ghost hv = pair_views(headers@);
    let mut out: Vec<(String, String)> = Vec::new();
    let mut i: usize = 0;
    assert(hv.take(0) =~= Seq::<(Seq<char>, Seq<char>)>::empty());
    while i < headers.len()
        invariant
            i <= headers@.len(),
            hv == pair_views(headers@),
            pair_views(out@) == usable(hv.take(i as int)),
        decreases headers@.len() - i,
    {
        let ghost before = pair_views(out@);
        proof {
            assert(hv.take(i + 1).drop_last() =~= hv.take(i as int));
            assert(hv.take(i + 1).last() == (headers@[i as int].0@, headers@[i as int].1@));
        }
        let ok_name = check_header_name(headers[i].0.as_str()).is_none();
        let ok_value = check_header_value(headers[i].1.as_str()).is_none();
        if ok_name && ok_value {
            out.push((headers[i].0.clone(), headers[i].1.clone()));
            assert(pair_views(out@) =~= before + seq![(headers@[i as int].0@, headers@[i as int].1@)]);
        } else {
            assert(pair_views(out@) =~= before + Seq::<(Seq<char>, Seq<char>)>::empty());
        }
        i = i + 1;
    }
    assert(hv.take(hv.len() as int) =~= hv);
    out
}

/// An event a stream reports to the orchestrator.
pub enum StreamEvent {
    /// A chunk of the body, as text: the tokens the model streamed.
    Token(String),
    /// Nothing arrived in time.
    Timeout { target: String, duration_ms: u64 },
    /// The stream failed.
    HttpError(String),
}

/// What happened on a stream.
pub enum HttpInput {
    /// The stream's runtime could not be built (the error's text).
    RuntimeFailed(String),
    /// No answer within this many milliseconds.
    ConnectTimedOut(u64),
    /// The request failed (the error's text).
    RequestFailed(String),
    /// The response's status, as text, and whether it is a success.
    Status { success: bool, text: String },
    /// A chunk of the body.
    Chunk(Vec<u8>),
    /// Reading the body failed (the error's text).
    ChunkFailed(String),
    /// No chunk within this many milliseconds.
    ReadTimedOut(u64),
    /// The body ended.
    Ended,
}

/// What a stream reports on an input, and whether it is over.
pub struct HttpOutput {
    pub events: Vec<StreamEvent>,
    pub done: bool,
}

pub enum StreamEventV {
    Token(Seq<char>),
    Timeout { target: Seq<char>, duration_ms: u64 },
    HttpError(Seq<char>),
}

pub open spec fn event_view(e: StreamEvent) -> StreamEventV {
    match e {
        StreamEvent::Token(c) => StreamEventV::Token(c@),
        StreamEvent::Timeout { target, duration_ms } => StreamEventV::Timeout { target: target@, duration_ms },
        StreamEvent::HttpError(m) => StreamEventV::HttpError(m@),
    }
}

pub open spec fn events_view(v: Seq<StreamEvent>) -> Seq<StreamEventV> {
    v.map_values(|e: StreamEvent| event_view(e))
}

/// The reports of a streaming request: every chunk as text; a timeout as a
/// timeout event for `llm` followed by an error; every failure as one
/// `HTTP error: ...` event (the runtime's own failure excepted), after
/// which the stream is over, as it is when the body ends.
pub open spec fn http_step_spec(input: HttpInput) -> (Seq<StreamEventV>, bool) {
    match input {
        HttpInput::RuntimeFailed(e) => (seq![StreamEventV::HttpError("Error creating runtime: "@ + e@)], true),
        HttpInput::ConnectTimedOut(ms) => (
            seq![
                StreamEventV::Timeout { target: "llm"@, duration_ms: ms },
                StreamEventV::HttpError("HTTP error: Initial connection timed out"@),
            ],
            true,
        ),
        HttpInput::RequestFailed(e) => (seq![StreamEventV::HttpError("HTTP error: HTTP request failed: "@ + e@)], true),
        HttpInput::Status { success, text } => if success {
            (Seq::empty(), false)
        } else {
            (seq![StreamEventV::HttpError("HTTP error: HTTP status error: "@ + text@)], true)
        },
        HttpInput::Chunk(b) => (seq![StreamEventV::Token(utf8_lossy(b@))], false),
        HttpInput::ChunkFailed(e) => (seq![StreamEventV::HttpError("HTTP error: Stream read error: "@ + e@)], true),
        HttpInput::ReadTimedOut(ms) => (
            seq![
                StreamEventV::Timeout { target: "llm"@, duration_ms: ms },
                StreamEventV::HttpError("HTTP error: Stream read timed out"@),
            ],
            true,
        ),
        HttpInput::Ended => (Seq::empty(), true),
    }
}

fn prefixed(p: &str, s: &str) -> (r: String)
    ensures
        r@ == p@ + s@,
{
    let mut b: Vec<char> = Vec::new();
    push_str(&mut b, p);
    push_str(&mut b, s);
    string_of(b.as_slice())
}

/// What a streaming request reports on `input`, as [`http_step_spec`]
/// says.
pub fn http_stream_step(input: HttpInput) -> (r: HttpOutput)
    ensures
        (events_view(r.events@), r.done) == http_step_spec(input),
{
    let mut events: Vec<StreamEvent> = Vec::new();
    let done = match input {
        HttpInput::RuntimeFailed(e) => {
            events.push(StreamEvent::HttpError(prefixed("Error creating runtime: ", e.as_str())));
            true
        },
        HttpInput::ConnectTimedOut(ms) => {
            events.push(StreamEvent::Timeout { target: owned("llm"), duration_ms: ms });
            events.push(StreamEvent::HttpError(owned("HTTP error: Initial connection timed out")));
            true
        },
        HttpInput::RequestFailed(e) => {
            events.push(StreamEvent::HttpError(prefixed("HTTP error: HTTP request failed: ", e.as_str())));
            true
        },
        HttpInput::Status { success, text } => if success {
            false
        } else {
            events.push(StreamEvent::HttpError(prefixed("HTTP error: HTTP status error: ", text.as_str())));
            true
        },
        HttpInput::Chunk(b) => {
            events.push(StreamEvent::Token(lossy_text(b.as_slice())));
            false
        },
        HttpInput::ChunkFailed(e) => {
            events.push(StreamEvent::HttpError(prefixed("HTTP error: Stream read error: ", e.as_str())));
            true
        },
        HttpInput::ReadTimedOut(ms) => {
            events.push(StreamEvent::Timeout { target: owned("llm"), duration_ms: ms });
            events.push(StreamEvent::HttpError(owned("HTTP error: Stream read timed out")));
            true
        },
        HttpInput::Ended => true,
    };
    proof {
        assert(events_view(events@) =~= http_step_spec(input).0);
    }
    HttpOutput { events, done }
}

/// What a module's request stream does on an input.
pub enum NetAction {
    /// Hand these bytes to the module and read on.
    Deliver(Vec<u8>),
    /// Read the body.
    ReadBody,
    /// End the stream with this error.
    Fail(String),
    /// End the stream: the body is complete.
    Finish,
}

/// A module's request stream: every failure ends it with an error naming
/// what failed (never as silence), and only the end of the body ends it
/// cleanly.
pub fn net_stream_step(url: &str, input: HttpInput) -> (r: NetAction)
    ensures
        match input {
            HttpInput::RuntimeFailed(e) => r matches NetAction::Fail(m) && m@ == "Error creating runtime: "@ + e@,
            HttpInput::ConnectTimedOut(ms) => r matches NetAction::Fail(m) && m@ == "Connection to "@ + url@
                + " timed out after "@ + decimal(ms as nat) + "ms with no response"@,
            HttpInput::RequestFailed(e) => r matches NetAction::Fail(m) && m@ == "HTTP request to "@ + url@
                + " failed: "@ + e@,
            HttpInput::Status { success, text } => if success {
                r is ReadBody
            } else {
                r matches NetAction::Fail(m) && m@ == "HTTP status error: "@ + text@ + " from "@ + url@
            },
            HttpInput::Chunk(b) => r matches NetAction::Deliver(d) && d@ == b@,
            HttpInput::ChunkFailed(e) => r matches NetAction::Fail(m) && m@ == "Stream read error: "@ + e@,
            HttpInput::ReadTimedOut(ms) => r matches NetAction::Fail(m) && m@ == "stream stalled: no data received for "@
                + decimal(ms as nat) + "ms"@,
            HttpInput::Ended => r is Finish,
        },
{
    match input {
        HttpInput::RuntimeFailed(e) => NetAction::Fail(prefixed("Error creating runtime: ", e.as_str())),
        HttpInput::ConnectTimedOut(ms) => {
            let mut b: Vec<char> = Vec::new();
            push_str(&mut b, "Connection to ");
            push_str(&mut b, url);
            push_str(&mut b, " timed out after ");
            let d = decimal_text(ms as u128);
            push_str(&mut b, d.as_str());
            push_str(&mut b, "ms with no response");
            NetAction::Fail(string_of(b.as_slice()))
        },
        HttpInput::RequestFailed(e) => {
            let mut b: Vec<char> = Vec::new();
            push_str(&mut b, "HTTP request to ");
            push_str(&mut b, url);
            push_str(&mut b, " failed: ");
            push_str(&mut b, e.as_str());
            NetAction::Fail(string_of(b.as_slice()))
        },
        HttpInput::Status { success, text } => if success {
            NetAction::ReadBody
        } else {
            let mut b: Vec<char> = Vec::new();
            push_str(&mut b, "HTTP status error: ");
            push_str(&mut b, text.as_str());
            push_str(&mut b, " from ");
            push_str(&mut b, url);
            NetAction::Fail(string_of(b.as_slice()))
        },
        HttpInput::Chunk(b) => NetAction::Deliver(b),
        HttpInput::ChunkFailed(e) => NetAction::Fail(prefixed("Stream read error: ", e.as_str())),
        HttpInput::ReadTimedOut(ms) => {
            let mut b: Vec<char> = Vec::new();
            push_str(&mut b, "stream stalled: no data received for ");
            let d = decimal_text(ms as u128);
            push_str(&mut b, d.as_str());
            push_str(&mut b, "ms");
            NetAction::Fail(string_of(b.as_slice()))
        },
        HttpInput::Ended => NetAction::Finish,
    }
}

} // verus!
