//! The CLI ↔ GUI wire protocol: JSON-RPC 2.0 over a local socket, one
//! newline-delimited JSON message per line.
//!
//! Methods: `open(path)`, `save(path)`, `close(path)`, `quit({force})`, and
//! the read side `read`, `find`, `section`, `edit`. This module holds the
//! message types, the error-code registry, the socket-path resolution, and
//! the client's decisions on a reply: frame limits, UTF-8 and envelope
//! validation, and the typing of connection failures. Serialization and the
//! socket itself live with the application.

use crate::codec::utf8_text;
use crate::text::{chars_of, string_of, trim_end};
use vstd::prelude::*;

verus! {

#[verifier::external_type_specification]
#[verifier::external_body]
pub struct ExJsonValue(serde_json::Value);

// ── Envelopes ──────────────────────────────────────────────────────────────

/// The JSON-RPC version marker; on the wire always the literal `"2.0"`.
#[derive(Debug, Clone, Copy, PartialEq, Eq)]
pub struct JsonRpcVersion;

/// The protocol version every message carries.
pub const JSONRPC_VERSION: &'static str = "2.0";

/// JSON-RPC 2.0 request envelope.
#[derive(Debug, PartialEq)]
pub struct Request {
    pub jsonrpc: JsonRpcVersion,
    pub id: u64,
    pub method: String,
    pub params: serde_json::Value,
}

/// JSON-RPC 2.0 error object.
#[derive(Debug, PartialEq)]
pub struct RpcError {
    pub code: i32,
    pub message: String,
    pub data: Option<serde_json::Value>,
}

/// JSON-RPC 2.0 response envelope: either `result` or `error` is set, never
/// both.
#[derive(Debug, PartialEq)]
pub struct Response {
    pub jsonrpc: JsonRpcVersion,
    pub id: u64,
    pub result: Option<serde_json::Value>,
    pub error: Option<RpcError>,
}

impl Response {
    /// A successful response carrying `result`.
    pub fn ok(id: u64, result: serde_json::Value) -> (r: Self)
        ensures
            r.id == id,
            r.result == Some(result),
            r.error is None,
    {
        Response { jsonrpc: JsonRpcVersion, id, result: Some(result), error: None }
    }

    /// An error response with `code` and `message` and no data.
    pub fn err(id: u64, code: i32, message: &str) -> (r: Self)
        ensures
            r.id == id,
            r.result is None,
            r.error matches Some(e) && e.code == code && e.message@ == message@ && e.data is None,
    {
        Response {
            jsonrpc: JsonRpcVersion,
            id,
            result: None,
            error: Some(RpcError { code, message: message.to_owned(), data: None }),
        }
    }
}

/// A reply the frontend sends back for a request-with-reply; shaped like a
/// [`Response`] without the envelope fields.
#[derive(Debug, PartialEq)]
pub struct Reply {
    pub result: Option<serde_json::Value>,
    pub error: Option<RpcError>,
}

impl Reply {
    /// A successful reply carrying `result`.
    pub fn ok(result: serde_json::Value) -> (r: Self)
        ensures
            r.result == Some(result),
            r.error is None,
    {
        Reply { result: Some(result), error: None }
    }

    /// An error reply with `code` and `message` and no data.
    pub fn err(code: i32, message: &str) -> (r: Self)
        ensures
            r.result is None,
            r.error matches Some(e) && e.code == code && e.message@ == message@ && e.data is None,
    {
        Reply { result: None, error: Some(RpcError { code, message: message.to_owned(), data: None }) }
    }
}

/// An event the server emits to the frontend for a request that needs a
/// reply; `id` is the request id the reply must echo.
#[derive(Debug, PartialEq)]
pub struct EventEnvelope<T> {
    pub id: u64,
    pub data: T,
}

// ── Method parameters and results ──────────────────────────────────────────

/// Params for `open`.
#[derive(Debug, Clone, PartialEq)]
pub struct OpenParams {
    /// Absolute or canonicalizable path to the markdown file.
    pub path: String,
}

/// Result of `open`.
#[derive(Debug, Clone, PartialEq)]
pub struct OpenResult {
    /// Stable id of the tab; empty when fire-and-forget.
    pub tab_id: String,
    /// `true` if the tab existed and was refreshed from disk.
    pub reloaded: bool,
}

/// Params for `save`.
#[derive(Debug, Clone, PartialEq)]
pub struct SaveParams {
    pub path: String,
}

/// `save`/`close` result; `applied: false` means the file was not open and
/// the command was a no-op.
#[derive(Debug, Clone, PartialEq)]
pub struct AckResult {
    pub applied: bool,
}

/// Params for `close`.
#[derive(Debug, Clone, PartialEq)]
pub struct CloseParams {
    pub path: String,
}

/// Params for `quit`.
#[derive(Debug, Clone, PartialEq)]
pub struct QuitParams {
    /// Skip the dirty-buffer confirmation prompt.
    pub force: bool,
}

impl Default for QuitParams {
    fn default() -> (r: Self)
        ensures
            !r.force,
    {
        QuitParams { force: false }
    }
}

/// Params for `read`.
#[derive(Debug, Clone, PartialEq)]
pub struct ReadParams {
    pub path: String,
}

/// Result of `read`: the in-memory buffer, which may differ from disk.
#[derive(Debug, Clone, PartialEq)]
pub struct ReadResult {
    pub path: String,
    pub content: String,
    pub is_dirty: bool,
}

/// Params for `find`.
#[derive(Debug, Clone, PartialEq)]
pub struct FindParams {
    pub pattern: String,
    /// Paths to search; empty means every open tab.
    pub paths: Vec<String>,
    /// Treat `pattern` as a literal string instead of a regex.
    pub literal: bool,
    /// Match case-sensitively.
    pub case_sensitive: bool,
}

/// One `find` match.
#[derive(Debug, Clone, PartialEq)]
pub struct FindHit {
    pub path: String,
    /// 1-indexed line number.
    pub line: u32,
    /// 1-indexed column where the match starts.
    pub column: u32,
    /// The line text.
    pub text: String,
}

/// Result of `find`.
#[derive(Debug, Clone, PartialEq)]
pub struct FindResult {
    pub hits: Vec<FindHit>,
}

/// Params for `section`.
#[derive(Debug, Clone, PartialEq)]
pub struct SectionParams {
    pub path: String,
    /// Heading text to find (case-insensitive substring).
    pub heading: String,
}

/// Result of `section`.
#[derive(Debug, Clone, PartialEq)]
pub struct SectionResult {
    pub heading: String,
    pub level: u8,
    pub content: String,
}

/// Params for `edit`: replace the 1-indexed inclusive line range.
#[derive(Debug, Clone, PartialEq)]
pub struct EditParams {
    pub path: String,
    pub start_line: u32,
    pub end_line: u32,
    pub content: String,
}

/// Result of `edit`.
#[derive(Debug, Clone, PartialEq)]
pub struct EditResult {
    pub applied: bool,
    pub size_after: usize,
}

// ── Error codes ────────────────────────────────────────────────────────────

pub const ERR_PARSE: i32 = -32700;
pub const ERR_INVALID_REQUEST: i32 = -32600;
pub const ERR_METHOD_NOT_FOUND: i32 = -32601;
pub const ERR_INVALID_PARAMS: i32 = -32602;
pub const ERR_INTERNAL: i32 = -32603;

/// The path argument is not a tab currently open in the GUI.
pub const ERR_TAB_NOT_OPEN: i32 = -32001;

/// `quit` without `force` while buffers are dirty.
pub const ERR_DIRTY_QUIT_REFUSED: i32 = -32002;

/// The frontend did not reply within the timeout.
pub const ERR_REPLY_TIMEOUT: i32 = -32003;

/// The requested heading was not found (`section`).
pub const ERR_SECTION_NOT_FOUND: i32 = -32004;

/// The application-defined codes.
pub open spec fn app_codes() -> Seq<i32> {
    seq![ERR_TAB_NOT_OPEN, ERR_DIRTY_QUIT_REFUSED, ERR_REPLY_TIMEOUT, ERR_SECTION_NOT_FOUND]
}

/// Law: the application-defined error codes lie in the range JSON-RPC
/// reserves for applications (-32099..=-32000) and are pairwise distinct.
pub proof fn law_app_codes_distinct()
    ensures
        forall|i: int| 0 <= i < app_codes().len() ==> -32099 <= #[trigger] app_codes()[i] <= -32000,
        forall|i: int, j: int|
            0 <= i < j < app_codes().len() ==> app_codes()[i] != app_codes()[j],
{
}

// ── Socket location ────────────────────────────────────────────────────────

/// `base` joined with the relative component `comp` (Unix separators): a
/// separator is added unless `base` is empty or already ends with one.
pub open spec fn join_path(base: Seq<char>, comp: Seq<char>) -> Seq<char> {
    if base.len() == 0 {
        comp
    } else if base.last() == '/' {
        base + comp
    } else {
        base + seq!['/'] + comp
    }
}

/// The socket path: the override when given, otherwise `<home>/.scrybe/sock`,
/// otherwise `/tmp/.scrybe-sock`.
pub open spec fn socket_path_for(sock_override: Option<Seq<char>>, home: Option<Seq<char>>) -> Seq<char> {
    match sock_override {
        Some(s) => s,
        None => match home {
            Some(h) => join_path(join_path(h, ".scrybe"@), "sock"@),
            None => "/tmp/.scrybe-sock"@,
        },
    }
}

pub(crate) fn join_path_exec(base: &[char], comp: &str) -> (r: Vec<char>)
    ensures
        r@ == join_path(base@, comp@),
{
    let mut out: Vec<char> = Vec::new();
    crate::text::push_all(&mut out, base);
    if base.len() > 0 && base[base.len() - 1] != '/' {
        out.push('/');
    }
    crate::text::push_str(&mut out, comp);
    assert(out@ =~= join_path(base@, comp@));
    out
}

/// Resolves the socket path from the `SCRYBE_SOCK` override and `HOME`:
/// the override if set, otherwise `~/.scrybe/sock`, falling back to
/// `/tmp/.scrybe-sock` when `HOME` is unset too.
pub fn resolve_socket_path(sock_override: Option<&str>, home: Option<&str>) -> (r: String)
    ensures
        r@ == socket_path_for(
            match sock_override {
                Some(s) => Some(s@),
                None => None,
            },
            match home {
                Some(h) => Some(h@),
                None => None,
            },
        ),
{
    match sock_override {
        Some(s) => s.to_owned(),
        None => match home {
            Some(h) => {
                let hv = chars_of(h);
                let a = join_path_exec(hv.as_slice(), ".scrybe");
                let b = join_path_exec(a.as_slice(), "sock");
                string_of(b.as_slice())
            },
            None => "/tmp/.scrybe-sock".to_owned(),
        },
    }
}

// ── Client decisions ───────────────────────────────────────────────────────

/// Maximum reply frame size, newline included: 16 MiB.
pub const MAX_FRAME_BYTES: usize = 16777216;

/// The request id used on every connection (one request per connection).
pub const REQUEST_ID: u64 = 1;

/// Why the socket could not be reached — the two "no app is running"
/// shapes.
#[derive(Debug, Clone, Copy, PartialEq, Eq)]
pub enum UnavailableKind {
    /// The socket file does not exist.
    NotFound,
    /// The socket file exists but nothing accepts (stale socket).
    ConnectionRefused,
}

/// A JSON-RPC 2.0 envelope violation in a reply.
#[derive(Debug, Clone, Copy, PartialEq, Eq)]
pub enum EnvelopeError {
    /// The `jsonrpc` member is missing or is not the literal `"2.0"`.
    WrongVersion,
    /// The `id` member is missing or not an unsigned integer.
    MissingId,
    /// Both `result` and `error` are present.
    BothResultAndError,
    /// Neither `result` nor `error` is present.
    NeitherResultNorError,
    /// The `error` member is not a well-formed error object.
    InvalidErrorObject,
}

impl EnvelopeError {
    /// The human-readable description of the violation.
    pub fn message(&self) -> (r: &'static str)
        ensures
            r@ == envelope_message(*self),
    {
        match self {
            EnvelopeError::WrongVersion => "missing or unsupported `jsonrpc` version (expected \"2.0\")",
            EnvelopeError::MissingId => "missing or non-integer `id`",
            EnvelopeError::BothResultAndError => "both `result` and `error` present",
            EnvelopeError::NeitherResultNorError => "neither `result` nor `error` present",
            EnvelopeError::InvalidErrorObject => "`error` member is not a valid JSON-RPC error object",
        }
    }
}

/// The description of each envelope violation.
pub open spec fn envelope_message(e: EnvelopeError) -> Seq<char> {
    match e {
        EnvelopeError::WrongVersion => "missing or unsupported `jsonrpc` version (expected \"2.0\")"@,
        EnvelopeError::MissingId => "missing or non-integer `id`"@,
        EnvelopeError::BothResultAndError => "both `result` and `error` present"@,
        EnvelopeError::NeitherResultNorError => "neither `result` nor `error` present"@,
        EnvelopeError::InvalidErrorObject => "`error` member is not a valid JSON-RPC error object"@,
    }
}

/// What a failed read of a reply frame amounts to.
#[derive(Debug, Clone, Copy, PartialEq, Eq)]
pub enum FrameFault {
    /// The frame exceeded [`MAX_FRAME_BYTES`]; `bytes` were read.
    TooLarge { bytes: usize, limit: usize },
    /// The server closed the connection without responding.
    Empty,
    /// The connection closed mid-frame (no terminating newline).
    Unterminated,
}

/// Checks one frame as read (at most `MAX_FRAME_BYTES + 1` bytes, up to and
/// including the first newline): within the limit, non-empty, and
/// newline-terminated.
pub fn check_frame(buf: &[u8]) -> (r: Result<(), FrameFault>)
    ensures
        buf@.len() > MAX_FRAME_BYTES ==> r == Err::<(), FrameFault>(
            FrameFault::TooLarge { bytes: buf@.len() as usize, limit: MAX_FRAME_BYTES },
        ),
        buf@.len() <= MAX_FRAME_BYTES && buf@.len() == 0 ==> r == Err::<(), FrameFault>(
            FrameFault::Empty,
        ),
        buf@.len() <= MAX_FRAME_BYTES && buf@.len() > 0 && buf@.last() != 10 ==> r == Err::<
            (),
            FrameFault,
        >(FrameFault::Unterminated),
        buf@.len() <= MAX_FRAME_BYTES && buf@.len() > 0 && buf@.last() == 10 ==> r is Ok,
{
    let n = buf.len();
    if n > MAX_FRAME_BYTES {
        return Err(FrameFault::TooLarge { bytes: n, limit: MAX_FRAME_BYTES });
    }
    if n == 0 {
        return Err(FrameFault::Empty);
    }
    if buf[n - 1] != 10u8 {
        return Err(FrameFault::Unterminated);
    }
    Ok(())
}

/// The text of a reply frame: its UTF-8 decoding with trailing whitespace
/// removed, or `None` when it is not valid UTF-8.
pub fn reply_text(frame: &[u8]) -> (r: Option<String>)
    ensures
        match r {
            Some(t) => vstd::utf8::valid_utf8(frame@) && t@ == trim_end(
                vstd::utf8::decode_utf8(frame@),
            ),
            None => !vstd::utf8::valid_utf8(frame@),
        },
{
    match utf8_text(frame) {
        Some(s) => {
            let cs = chars_of(s.as_str());
            let t = crate::text::trim_chars_end(cs.as_slice());
            Some(string_of(t.as_slice()))
        },
        None => None,
    }
}

/// The members of a parsed reply that envelope validation reads.
pub struct EnvelopeFields {
    /// The `jsonrpc` member, when it is a string.
    pub version: Option<String>,
    /// The `id` member, when it is an unsigned integer.
    pub id: Option<u64>,
    /// The `result` member, when present.
    pub result: Option<serde_json::Value>,
    /// Whether an `error` member is present.
    pub has_error: bool,
    /// The `error` member read as an error object, when it is one.
    pub error: Option<RpcError>,
}

/// What a reply amounts to.
#[derive(Debug)]
pub enum Verdict {
    /// A valid reply carrying a result.
    Result(serde_json::Value),
    /// A valid reply carrying an in-band application error.
    Remote(RpcError),
    /// The reply violates the envelope.
    Invalid(EnvelopeError),
    /// The reply echoes another request's id.
    MismatchedResponseId { expected: u64, actual: u64 },
}

/// The verdict on a reply with members `f` to request `expected_id`. Checks,
/// in order: `jsonrpc == "2.0"`, an integer `id` echoing the request id,
/// exactly one of `result`/`error`, and a well-formed error object.
pub open spec fn verdict_of(f: EnvelopeFields, expected_id: u64) -> Verdict {
    if !(f.version matches Some(v) && v@ == JSONRPC_VERSION@) {
        Verdict::Invalid(EnvelopeError::WrongVersion)
    } else if f.id is None {
        Verdict::Invalid(EnvelopeError::MissingId)
    } else if f.id->0 != expected_id {
        Verdict::MismatchedResponseId { expected: expected_id, actual: f.id->0 }
    } else if f.result is Some && f.has_error {
        Verdict::Invalid(EnvelopeError::BothResultAndError)
    } else if f.result is None && !f.has_error {
        Verdict::Invalid(EnvelopeError::NeitherResultNorError)
    } else if f.result is Some {
        Verdict::Result(f.result->0)
    } else {
        match f.error {
            Some(e) => Verdict::Remote(e),
            None => Verdict::Invalid(EnvelopeError::InvalidErrorObject),
        }
    }
}

/// Validates a parsed reply against the JSON-RPC 2.0 envelope.
pub fn judge_envelope(f: EnvelopeFields, expected_id: u64) -> (r: Verdict)
    ensures
        r == verdict_of(f, expected_id),
{
    let ghost g = f;
    let is_v2 = match &f.version {
        Some(v) => {
            let cs = chars_of(v.as_str());
            let want = chars_of(JSONRPC_VERSION);
            let b = cs.len() == want.len() && crate::text::has_prefix(cs.as_slice(), want.as_slice());
            proof {
                if cs@.len() == want@.len() {
                    assert(cs@.take(cs@.len() as int) =~= cs@);
                }
            }
            b
        },
        None => false,
    };
    if !is_v2 {
        return Verdict::Invalid(EnvelopeError::WrongVersion);
    }
    let actual = match f.id {
        Some(i) => i,
        None => {
            return Verdict::Invalid(EnvelopeError::MissingId);
        },
    };
    if actual != expected_id {
        return Verdict::MismatchedResponseId { expected: expected_id, actual };
    }
    match f.result {
        Some(v) => {
            if f.has_error {
                Verdict::Invalid(EnvelopeError::BothResultAndError)
            } else {
                Verdict::Result(v)
            }
        },
        None => {
            if !f.has_error {
                Verdict::Invalid(EnvelopeError::NeitherResultNorError)
            } else {
                match f.error {
                    Some(e) => Verdict::Remote(e),
                    None => Verdict::Invalid(EnvelopeError::InvalidErrorObject),
                }
            }
        },
    }
}

/// The I/O failure kinds the client tells apart.
#[derive(Debug, Clone, Copy, PartialEq, Eq)]
pub enum IoKind {
    NotFound,
    ConnectionRefused,
    PermissionDenied,
    TimedOut,
    WouldBlock,
    Other,
}

/// What a failed connection amounts to.
#[derive(Debug, Clone, Copy, PartialEq, Eq)]
pub enum ConnectFailure {
    /// No app is running (missing or stale socket).
    SocketUnavailable(UnavailableKind),
    /// The socket exists but may not be connected to.
    PermissionDenied,
    /// Connecting did not complete in time.
    ConnectTimeout,
    /// Any other socket failure.
    Io,
}

/// Types a connection failure by its I/O kind.
pub fn classify_connect(kind: IoKind) -> (r: ConnectFailure)
    ensures
        r == match kind {
            IoKind::NotFound => ConnectFailure::SocketUnavailable(UnavailableKind::NotFound),
            IoKind::ConnectionRefused => ConnectFailure::SocketUnavailable(
                UnavailableKind::ConnectionRefused,
            ),
            IoKind::PermissionDenied => ConnectFailure::PermissionDenied,
            IoKind::TimedOut | IoKind::WouldBlock => ConnectFailure::ConnectTimeout,
            IoKind::Other => ConnectFailure::Io,
        },
{
    match kind {
        IoKind::NotFound => ConnectFailure::SocketUnavailable(UnavailableKind::NotFound),
        IoKind::ConnectionRefused => ConnectFailure::SocketUnavailable(UnavailableKind::ConnectionRefused),
        IoKind::PermissionDenied => ConnectFailure::PermissionDenied,
        IoKind::TimedOut | IoKind::WouldBlock => ConnectFailure::ConnectTimeout,
        IoKind::Other => ConnectFailure::Io,
    }
}

/// Whether a read or write failure of kind `kind` is a timeout.
pub fn is_timeout(kind: IoKind) -> (b: bool)
    ensures
        b == (kind is TimedOut || kind is WouldBlock),
{
    match kind {
        IoKind::TimedOut | IoKind::WouldBlock => true,
        _ => false,
    }
}

// ── Reading a reply ────────────────────────────────────────────────────────

/// The view of the members of a parsed reply that validation reads: the
/// `jsonrpc` string, the unsigned `id`, whether `result` is present,
/// whether `error` is present, and the error object's code and message
/// when it is well formed.
pub type MembersV = (Option<Seq<char>>, Option<u64>, bool, bool, Option<(i32, Seq<char>)>);

/// What `serde_json` reads from the reply text `text`: `None` when it is
/// not JSON; otherwise its members as `MembersV` describes them.
pub uninterp spec fn envelope_members(text: Seq<char>) -> Option<MembersV>;

/// The view of the fields read from a reply.
pub open spec fn members_of(f: EnvelopeFields) -> MembersV {
    (
        match f.version {
            Some(v) => Some(v@),
            None => None,
        },
        f.id,
        f.result is Some,
        f.has_error,
        match f.error {
            Some(e) => Some((e.code, e.message@)),
            None => None,
        },
    )
}

/// Calls `serde_json::from_str::<Value>` on a reply's text and reads its
/// members with `Value::get`: `jsonrpc` by `as_str`, `id` by `as_u64`,
/// `result` as present or not, `error` as present or not and, as an error
/// object, its `code` by `as_i64` when it fits an `i32`, its `message` by
/// `as_str` and its `data` when present and not `null`. Claims that the
/// fields are `envelope_members` of the text, and that parsing fails
/// exactly when that is `None`.
#[verifier::external_body]
fn parse_envelope(text: &str) -> (r: Result<EnvelopeFields, serde_json::Error>)
    ensures
        match r {
            Ok(f) => envelope_members(text@) == Some(members_of(f)),
            Err(_) => envelope_members(text@) is None,
        },
{
    let raw: serde_json::Value = serde_json::from_str(text)?;
    let error = raw.get("error").and_then(|e| {
        let code = i32::try_from(e.get("code")?.as_i64()?).ok()?;
        let message = e.get("message")?.as_str()?.to_string();
        Some(RpcError { code, message, data: e.get("data").filter(|d| !d.is_null()).cloned() })
    });
    Ok(EnvelopeFields {
        version: raw.get("jsonrpc").and_then(serde_json::Value::as_str).map(str::to_string),
        id: raw.get("id").and_then(serde_json::Value::as_u64),
        result: raw.get("result").cloned(),
        has_error: raw.get("error").is_some(),
        error,
    })
}

/// Why a reply frame is refused.
#[derive(Debug)]
pub enum ReplyFault {
    /// The frame is not valid UTF-8.
    InvalidUtf8,
    /// The frame's text is not JSON.
    InvalidJson(serde_json::Error),
    /// A valid reply carrying an in-band application error.
    Remote(RpcError),
    /// The reply violates the JSON-RPC 2.0 envelope.
    InvalidEnvelope(EnvelopeError),
    /// The reply echoes another request's id.
    MismatchedResponseId { expected: u64, actual: u64 },
}

/// The verdict on a reply whose members are `m`, to request `expected_id`,
/// over the members' views (as `verdict_of` checks them).
pub enum VerdictModel {
    Result,
    Remote(i32, Seq<char>),
    Invalid(EnvelopeError),
    Mismatched(u64, u64),
}

/// The verdict, in `verdict_of`'s order, on a reply with members `m`.
pub open spec fn verdict_model(m: MembersV, expected_id: u64) -> VerdictModel {
    if !(m.0 == Some(JSONRPC_VERSION@)) {
        VerdictModel::Invalid(EnvelopeError::WrongVersion)
    } else if m.1 is None {
        VerdictModel::Invalid(EnvelopeError::MissingId)
    } else if m.1->0 != expected_id {
        VerdictModel::Mismatched(expected_id, m.1->0)
    } else if m.2 && m.3 {
        VerdictModel::Invalid(EnvelopeError::BothResultAndError)
    } else if !m.2 && !m.3 {
        VerdictModel::Invalid(EnvelopeError::NeitherResultNorError)
    } else if m.2 {
        VerdictModel::Result
    } else {
        match m.4 {
            Some((code, message)) => VerdictModel::Remote(code, message),
            None => VerdictModel::Invalid(EnvelopeError::InvalidErrorObject),
        }
    }
}

/// `r` is what validation gives for the verdict `v`.
pub open spec fn gives(r: Result<serde_json::Value, ReplyFault>, v: VerdictModel) -> bool {
    match v {
        VerdictModel::Result => r is Ok,
        VerdictModel::Remote(code, message) => r matches Err(ReplyFault::Remote(e)) && e.code == code
            && e.message@ == message,
        VerdictModel::Invalid(k) => r matches Err(ReplyFault::InvalidEnvelope(x)) && x == k,
        VerdictModel::Mismatched(a, b) => r matches Err(
            ReplyFault::MismatchedResponseId { expected, actual },
        ) && expected == a && actual == b,
    }
}

/// Validates one reply frame to request `expected_id` against the JSON-RPC
/// 2.0 envelope and unwraps its result: the frame must be UTF-8, its text
/// (trailing whitespace removed) JSON, and its members pass the envelope
/// checks in order.
pub fn validate_envelope(frame: &[u8], expected_id: u64) -> (r: Result<serde_json::Value, ReplyFault>)
    ensures
        !vstd::utf8::valid_utf8(frame@) ==> r matches Err(ReplyFault::InvalidUtf8),
        vstd::utf8::valid_utf8(frame@) ==> match envelope_members(
            trim_end(vstd::utf8::decode_utf8(frame@)),
        ) {
            None => r matches Err(ReplyFault::InvalidJson(_)),
            Some(m) => gives(r, verdict_model(m, expected_id)),
        },
{
    let text = match reply_text(frame) {
        Some(t) => t,
        None => {
            return Err(ReplyFault::InvalidUtf8);
        },
    };
    let fields = match parse_envelope(text.as_str()) {
        Ok(f) => f,
        Err(e) => {
            return Err(ReplyFault::InvalidJson(e));
        },
    };
    let ghost m = members_of(fields);
    proof {
        reveal_strlit("2.0");
        assert(fields.version matches Some(v) && v@ == JSONRPC_VERSION@ <==> m.0 == Some(JSONRPC_VERSION@));
    }
    match judge_envelope(fields, expected_id) {
        Verdict::Result(v) => Ok(v),
        Verdict::Remote(e) => Err(ReplyFault::Remote(e)),
        Verdict::Invalid(e) => Err(ReplyFault::InvalidEnvelope(e)),
        Verdict::MismatchedResponseId { expected, actual } => Err(
            ReplyFault::MismatchedResponseId { expected, actual },
        ),
    }
}

} // verus!
