//! The decision logic of the tool layer shared by the CLI and the MCP
//! server: tool errors and engine faults, the headless transport, the
//! argument gate, opt-in auto-launch of the desktop app, and the naming of
//! exported figures.

use crate::text::{chars_of, decimal, decimal_chars, eq_ci, push_all, push_str, string_of, trim};
use vstd::prelude::*;

verus! {

// ── Outcomes and faults ────────────────────────────────────────────────────

/// Tool group — drives progressive disclosure and feature gating.
#[derive(Debug, Clone, Copy, PartialEq, Eq)]
pub enum Facet {
    Core,
    Editor,
    Mermaid,
    Vcs,
    UiParity,
    Swarm,
}

/// A business-level failure: the tool ran and said "no". Data carried in
/// the outcome, not an engine fault.
#[derive(Debug, Clone)]
pub struct ToolError {
    /// Stable machine code, e.g. `"heading_not_found"`.
    pub code: String,
    /// Human/agent-readable explanation.
    pub message: String,
}

impl ToolError {
    /// A tool error with `code` and `message`.
    pub fn new(code: &str, message: &str) -> (r: Self)
        ensures
            r.code@ == code@,
            r.message@ == message@,
    {
        ToolError { code: code.to_owned(), message: message.to_owned() }
    }
}

/// The business error of the export's path check, from what the disk says
/// of the paths: the input must be a file; the output's directory, when the
/// output names one, must exist (`missing_dir` is that directory when it
/// does not); the output must not be a symlink. The first failing check
/// decides; `None` when all pass.
pub fn export_path_error(
    path: &str,
    input_is_file: bool,
    output: &str,
    missing_dir: Option<&str>,
    output_is_symlink: bool,
) -> (r: Option<ToolError>)
    ensures
        !input_is_file ==> (r matches Some(e) && e.code@ == "input_not_found"@ && e.message@
            == "input Markdown file not found (or not a file): "@ + path@),
        input_is_file && missing_dir is Some ==> (r matches Some(e) && e.code@ == "bad_output"@
            && e.message@ == "output directory does not exist: "@ + missing_dir.unwrap()@),
        input_is_file && missing_dir is None && output_is_symlink ==> (r matches Some(e) && e.code@
            == "symlinked_output"@ && e.message@
            == "refusing to write through a symlinked output target: "@ + output@),
        input_is_file && missing_dir is None && !output_is_symlink ==> r is None,
{
    let (code, lead, subject) = if !input_is_file {
        ("input_not_found", "input Markdown file not found (or not a file): ", path)
    } else {
        match missing_dir {
            Some(d) => ("bad_output", "output directory does not exist: ", d),
            None => {
                if output_is_symlink {
                    ("symlinked_output", "refusing to write through a symlinked output target: ", output)
                } else {
                    return None;
                }
            },
        }
    };
    let mut msg: Vec<char> = Vec::new();
    crate::text::push_str(&mut msg, lead);
    crate::text::push_str(&mut msg, subject);
    let m = crate::text::string_of(msg.as_slice());
    Some(ToolError { code: crate::text::owned(code), message: m })
}

/// Engine fault: the dispatcher could not run the tool at all.
#[derive(Debug, Clone, PartialEq, Eq)]
pub enum EngineFault {
    /// No tool with this name is registered.
    UnknownTool(String),
    /// Arguments failed validation before the handler ran.
    BadArgs(String),
    /// The transport to the live app failed.
    Transport(String),
}

impl EngineFault {
    /// The fault's message: `unknown tool: …`, `invalid arguments: …` or
    /// `transport error: …`.
    pub fn message(&self) -> (r: String)
        ensures
            r@ == engine_fault_message(*self),
    {
        let mut out: Vec<char> = Vec::new();
        match self {
            EngineFault::UnknownTool(s) => {
                push_str(&mut out, "unknown tool: ");
                push_str(&mut out, s.as_str());
            },
            EngineFault::BadArgs(s) => {
                push_str(&mut out, "invalid arguments: ");
                push_str(&mut out, s.as_str());
            },
            EngineFault::Transport(s) => {
                push_str(&mut out, "transport error: ");
                push_str(&mut out, s.as_str());
            },
        }
        string_of(out.as_slice())
    }
}

/// The message of each engine fault.
pub open spec fn engine_fault_message(f: EngineFault) -> Seq<char> {
    match f {
        EngineFault::UnknownTool(s) => "unknown tool: "@ + s@,
        EngineFault::BadArgs(s) => "invalid arguments: "@ + s@,
        EngineFault::Transport(s) => "transport error: "@ + s@,
    }
}

/// Failure talking to the live app over the socket.
#[derive(Debug, Clone, PartialEq, Eq)]
pub enum TransportError {
    /// No Scrybe app is running to service the request.
    NoApp,
    /// An I/O or protocol error on the socket.
    Io(String),
}

impl TransportError {
    /// The error's message.
    pub fn message(&self) -> (r: String)
        ensures
            r@ == match *self {
                TransportError::NoApp => "no Scrybe app is running"@,
                TransportError::Io(s) => s@,
            },
    {
        match self {
            TransportError::NoApp => "no Scrybe app is running".to_owned(),
            TransportError::Io(s) => s.clone(),
        }
    }
}

/// Round-trips RPC requests to the live app — the only place a tool
/// touches the outside world.
pub trait Transport {
    /// Round-trips RPC `method` with `params`.
    fn call(&self, method: &str, params: serde_json::Value) -> Result<serde_json::Value, TransportError>;

    /// Is a live app reachable?
    fn is_live(&self) -> bool;
}

/// No socket: only the GUI-free tools run; every call is `NoApp`.
pub struct Headless;

impl Transport for Headless {
    fn call(&self, method: &str, params: serde_json::Value) -> (r: Result<serde_json::Value, TransportError>)
        ensures
            r matches Err(TransportError::NoApp),
    {
        Err(TransportError::NoApp)
    }

    fn is_live(&self) -> (b: bool)
        ensures
            !b,
    {
        false
    }
}

/// The decimal numeral of a signed number, with a minus sign when negative.
pub open spec fn signed_decimal(n: int) -> Seq<char> {
    if n < 0 {
        seq!['-'] + decimal((-n) as nat)
    } else {
        decimal(n as nat)
    }
}

/// The decimal numeral of `n`.
fn signed_decimal_chars(n: i32) -> (r: Vec<char>)
    ensures
        r@ == signed_decimal(n as int),
{
    if n < 0 {
        let m: usize = if n == i32::MIN {
            2147483648usize
        } else {
            (-n) as usize
        };
        let d = decimal_chars(m);
        let mut r: Vec<char> = Vec::new();
        r.push('-');
        push_all(&mut r, d.as_slice());
        assert(r@ =~= signed_decimal(n as int));
        r
    } else {
        decimal_chars(n as usize)
    }
}

/// What the client reports when no app listens on the socket.
pub const NO_APP_MARKER: &'static str = "no Scrybe running";

/// What the live-app transport makes of the RPC client's answer to a call:
/// an in-band error reply is an I/O error `code: message`; a success reply
/// gives its result (the caller reads a missing one as JSON null); a
/// client failure is `NoApp` when it says no app is running, else an I/O
/// error with the client's message.
pub fn live_result(reply: Result<crate::rpc::Response, String>) -> (r: Result<
    Option<serde_json::Value>,
    TransportError,
>)
    ensures
        match reply {
            Ok(resp) => match resp.error {
                Some(err) => r matches Err(TransportError::Io(m)) && m@ == signed_decimal(
                    err.code as int,
                ) + seq![':', ' '] + err.message@,
                None => r == Ok::<Option<serde_json::Value>, TransportError>(resp.result),
            },
            Err(e) => if crate::text::find_from(e@, NO_APP_MARKER@, 0) is Some {
                r matches Err(TransportError::NoApp)
            } else {
                r matches Err(TransportError::Io(m)) && m@ == e@
            },
        },
{
    match reply {
        Ok(resp) => match resp.error {
            Some(err) => {
                let mut m = signed_decimal_chars(err.code);
                m.push(':');
                m.push(' ');
                push_str(&mut m, err.message.as_str());
                Err(TransportError::Io(string_of(m.as_slice())))
            },
            None => Ok(resp.result),
        },
        Err(e) => {
            let hay = chars_of(e.as_str());
            let pat = chars_of(NO_APP_MARKER);
            match crate::text::find_chars(hay.as_slice(), pat.as_slice(), 0) {
                Some(_) => Err(TransportError::NoApp),
                None => Err(TransportError::Io(e)),
            }
        },
    }
}

/// What the `extract` tool reports of a verified extraction.
#[derive(Debug)]
pub enum ExtractReport {
    /// The payload read: its source and UUID, the verified digest (empty
    /// when the payload stored none), and whether it was verified.
    Extracted { source: String, uuid: String, sha256: String, verified: bool },
    /// The stored digest does not match the source: the business failure
    /// `verification_failed`, never the tampered source.
    Tampered { algorithm: &'static str, expected: String, actual: String },
    /// The file carries no readable payload: the business failure
    /// `no_payload`, with the reason.
    NoPayload(crate::codec::MermaidError),
}

/// Sorts the result of a verified extraction into what the `extract` tool
/// reports.
pub fn extract_report(r: Result<crate::codec::VerifiedPayload, crate::codec::MermaidError>) -> (out:
    ExtractReport)
    ensures
        match r {
            Ok(p) => out matches ExtractReport::Extracted { source, uuid, sha256, verified } && source@
                == p.source@ && uuid@ == p.uuid@ && verified == (p.verification is Verified)
                && sha256@ == match p.verification {
                crate::codec::VerificationStatus::Verified { digest, .. } => digest@,
                crate::codec::VerificationStatus::NoDigest => Seq::<char>::empty(),
            },
            Err(crate::codec::MermaidError::VerificationFailed { algorithm, expected, actual }) => out
                matches ExtractReport::Tampered { algorithm: a, expected: x, actual: y } && a == algorithm
                && x == expected && y == actual,
            Err(e) => out matches ExtractReport::NoPayload(x) && x == e,
        },
{
    match r {
        Ok(p) => {
            let verified = p.is_verified();
            let sha256 = match p.sha256() {
                Some(d) => d.to_owned(),
                None => String::new(),
            };
            ExtractReport::Extracted { source: p.source, uuid: p.uuid, sha256, verified }
        },
        Err(crate::codec::MermaidError::VerificationFailed { algorithm, expected, actual }) => {
            ExtractReport::Tampered { algorithm, expected, actual }
        },
        Err(e) => ExtractReport::NoPayload(e),
    }
}

// ── The argument gate ──────────────────────────────────────────────────────

/// The first key of `required` that `present` lacks.
pub open spec fn first_missing(required: Seq<Seq<char>>, present: Seq<Seq<char>>) -> Option<Seq<char>>
    decreases required.len(),
{
    if required.len() == 0 {
        None
    } else if !present.contains(required[0]) {
        Some(required[0])
    } else {
        first_missing(required.drop_first(), present)
    }
}

/// Whether `key` is among `keys`.
fn contains_key(keys: &[String], key: &String) -> (b: bool)
    ensures
        b == crate::parser::types::strings_model(keys@).contains(key@),
{
    let ghost m = crate::parser::types::strings_model(keys@);
    let mut i: usize = 0;
    while i < keys.len()
        invariant
            i <= keys@.len(),
            m == crate::parser::types::strings_model(keys@),
            forall|j: int| 0 <= j < i ==> m[j] != key@,
        decreases keys.len() - i,
    {
        if keys[i] == *key {
            assert(m[i as int] == key@);
            return true;
        }
        i = i + 1;
    }
    assert forall|x: Seq<char>| m.contains(x) implies x != key@ by {
        let j = choose|j: int| 0 <= j < m.len() && m[j] == x;
        assert(m[j] != key@);
    }
    false
}

/// The dispatcher's argument gate: every key the tool's schema lists as
/// `required` must be among the argument keys; the first missing one is a
/// `BadArgs` fault naming it.
pub fn require_args(required: &[String], present: &[String]) -> (r: Result<(), EngineFault>)
    ensures
        match first_missing(
            crate::parser::types::strings_model(required@),
            crate::parser::types::strings_model(present@),
        ) {
            Some(k) => r matches Err(EngineFault::BadArgs(m)) && m@ == "missing required argument: "@
                + k,
            None => r is Ok,
        },
{
    let ghost rm = crate::parser::types::strings_model(required@);
    let ghost pm = crate::parser::types::strings_model(present@);
    let mut i: usize = 0;
    assert(rm.skip(0) =~= rm);
    while i < required.len()
        invariant
            i <= required@.len(),
            rm == crate::parser::types::strings_model(required@),
            pm == crate::parser::types::strings_model(present@),
            first_missing(rm, pm) == first_missing(rm.skip(i as int), pm),
        decreases required.len() - i,
    {
        assert(rm.skip(i as int)[0] == required@[i as int]@);
        assert(rm.skip(i as int).drop_first() =~= rm.skip(i + 1));
        if !contains_key(present, &required[i]) {
            let mut m: Vec<char> = Vec::new();
            push_str(&mut m, "missing required argument: ");
            push_str(&mut m, required[i].as_str());
            return Err(EngineFault::BadArgs(string_of(m.as_slice())));
        }
        i = i + 1;
    }
    assert(rm.skip(i as int) =~= Seq::<Seq<char>>::empty());
    Ok(())
}

// ── Auto-launch ────────────────────────────────────────────────────────────

/// Env var that opts into auto-launch.
pub const AUTOLAUNCH_ENV: &'static str = "SCRYBE_MCP_AUTOLAUNCH";

/// Optional explicit `Scrybe.app` bundle path, checked first.
pub const APP_ENV: &'static str = "SCRYBE_APP";

/// The system-wide install location.
pub const SYSTEM_APP: &'static str = "/Applications/Scrybe.app";

/// Liveness probes made after a launch before giving up.
pub const DEFAULT_TRIES: u32 = 20;

/// A truthy opt-in value: `1`, `true`, `yes` or `on`, ignoring surrounding
/// whitespace and ASCII case.
pub open spec fn truthy(v: Option<Seq<char>>) -> bool {
    match v {
        Some(s) => {
            let t = trim(s);
            eq_ci(t, "1"@) || eq_ci(t, "true"@) || eq_ci(t, "yes"@) || eq_ci(t, "on"@)
        },
        None => false,
    }
}

fn is_word(t: &[char], w: &str) -> (b: bool)
    ensures
        b == eq_ci(t@, w@),
{
    let wv = chars_of(w);
    t.len() == wv.len() && crate::text::has_prefix_ci(t, wv.as_slice())
}

/// Whether the auto-launch opt-in value `v` is truthy.
pub fn is_truthy(v: Option<&str>) -> (b: bool)
    ensures
        b == truthy(
            match v {
                Some(s) => Some(s@),
                None => None,
            },
        ),
{
    match v {
        Some(s) => {
            let cs = chars_of(s);
            let t = crate::text::trim_chars(cs.as_slice());
            is_word(t.as_slice(), "1") || is_word(t.as_slice(), "true") || is_word(
                t.as_slice(),
                "yes",
            ) || is_word(t.as_slice(), "on")
        },
        None => false,
    }
}

/// The candidate `Scrybe.app` locations in priority order: the explicit
/// bundle path, the system-wide location, then the user's `Applications`.
pub open spec fn app_candidates_for(app_env: Option<Seq<char>>, home: Option<Seq<char>>) -> Seq<Seq<char>> {
    (match app_env {
        Some(p) => seq![p],
        None => seq![],
    }) + seq![SYSTEM_APP@] + (match home {
        Some(h) => seq![crate::rpc::join_path(h, "Applications/Scrybe.app"@)],
        None => seq![],
    })
}

/// The candidate `Scrybe.app` locations for the environment values
/// `app_env` (`$SCRYBE_APP`) and `home` (`$HOME`).
pub fn app_candidates(app_env: Option<&str>, home: Option<&str>) -> (r: Vec<String>)
    ensures
        crate::parser::types::strings_model(r@) == app_candidates_for(
            match app_env {
                Some(s) => Some(s@),
                None => None,
            },
            match home {
                Some(h) => Some(h@),
                None => None,
            },
        ),
{
    let ghost e = match app_env {
        Some(s) => Some(s@),
        None => None,
    };
    let ghost h0 = match home {
        Some(h) => Some(h@),
        None => None,
    };
    let mut out: Vec<String> = Vec::new();
    if let Some(p) = app_env {
        out.push(p.to_owned());
    }
    let ghost first = crate::parser::types::strings_model(out@);
    assert(first =~= match e {
        Some(p) => seq![p],
        None => Seq::<Seq<char>>::empty(),
    });
    out.push(SYSTEM_APP.to_owned());
    assert(crate::parser::types::strings_model(out@) =~= first + seq![SYSTEM_APP@]);
    let ghost second = crate::parser::types::strings_model(out@);
    if let Some(h) = home {
        let hv = chars_of(h);
        let v = crate::rpc::join_path_exec(hv.as_slice(), "Applications/Scrybe.app");
        out.push(string_of(v.as_slice()));
        assert(crate::parser::types::strings_model(out@) =~= second + seq![
            crate::rpc::join_path(h@, "Applications/Scrybe.app"@),
        ]);
    } else {
        assert(second + Seq::<Seq<char>>::empty() =~= second);
    }
    out
}

/// The first of `candidates` whose answer in `present` is true.
pub open spec fn first_existing(candidates: Seq<Seq<char>>, present: Seq<bool>) -> Option<Seq<char>>
    decreases candidates.len(),
{
    if candidates.len() == 0 || present.len() == 0 {
        None
    } else if present[0] {
        Some(candidates[0])
    } else {
        first_existing(candidates.drop_first(), present.drop_first())
    }
}

/// The view of an optional string.
pub open spec fn opt_view(o: Option<String>) -> Option<Seq<char>> {
    match o {
        Some(s) => Some(s@),
        None => None,
    }
}

/// `b` is an answer `probe` can give for the path `c`.
pub open spec fn answers<X: Fn(&str) -> bool>(probe: X, c: Seq<char>, b: bool) -> bool {
    exists|s: &str| s@ == c && #[trigger] call_ensures(probe, (s,), b)
}

/// `probes[j]` is an answer `probe` can give for `cands[j]`.
pub open spec fn probed<X: Fn(&str) -> bool>(probe: X, cands: Seq<Seq<char>>, probes: Seq<bool>) -> bool {
    &&& probes.len() <= cands.len()
    &&& forall|j: int| 0 <= j < probes.len() ==> #[trigger] answers(probe, cands[j], probes[j])
}

proof fn lemma_first_existing_at(c: Seq<Seq<char>>, probes: Seq<bool>, i: int)
    requires
        0 <= i < c.len(),
        probes.len() == i + 1,
        probes[i],
        forall|j: int| 0 <= j < i ==> !probes[j],
    ensures
        first_existing(c, probes) == Some(c[i]),
    decreases i,
{
    if i > 0 {
        lemma_first_existing_at(c.drop_first(), probes.drop_first(), i - 1);
    }
}

proof fn lemma_first_existing_none(c: Seq<Seq<char>>, probes: Seq<bool>)
    requires
        forall|j: int| 0 <= j < probes.len() ==> !probes[j],
    ensures
        first_existing(c, probes) is None,
    decreases c.len(),
{
    if c.len() > 0 && probes.len() > 0 {
        lemma_first_existing_none(c.drop_first(), probes.drop_first());
    }
}

/// Resolves the installed `Scrybe.app`, in priority order: `$SCRYBE_APP`,
/// `/Applications/Scrybe.app`, `$HOME/Applications/Scrybe.app` — the first
/// candidate `probe` reports present. `env` looks up an environment
/// variable; both are injected so the order is testable without a real
/// environment or filesystem.
pub fn resolve_app<E: Fn(&str) -> Option<String>, X: Fn(&str) -> bool>(env: E, probe: X) -> (r: Option<String>)
    requires
        forall|k: &str| call_requires(env, (k,)),
        forall|p: &str| call_requires(probe, (p,)),
    ensures
        exists|a: Option<String>, h: Option<String>, probes: Seq<bool>|
            call_ensures(env, (APP_ENV,), a) && call_ensures(env, ("HOME",), h) && probed(
                probe,
                app_candidates_for(opt_view(a), opt_view(h)),
                probes,
            ) && opt_view(r) == first_existing(app_candidates_for(opt_view(a), opt_view(h)), probes),
{
    let a = env(APP_ENV);
    let h = env("HOME");
    let cands = app_candidates(
        match &a {
            Some(s) => Some(s.as_str()),
            None => None,
        },
        match &h {
            Some(s) => Some(s.as_str()),
            None => None,
        },
    );
    let ghost cm = crate::parser::types::strings_model(cands@);
    let ghost mut probes: Seq<bool> = seq![];
    let mut i: usize = 0;
    while i < cands.len()
        invariant
            i <= cands@.len(),
            cm == crate::parser::types::strings_model(cands@),
            cm == app_candidates_for(opt_view(a), opt_view(h)),
            call_ensures(env, (APP_ENV,), a),
            call_ensures(env, ("HOME",), h),
            probes.len() == i,
            probed(probe, cm, probes),
            forall|j: int| 0 <= j < i ==> !probes[j],
            forall|p: &str| call_requires(probe, (p,)),
        decreases cands.len() - i,
    {
        let s = cands[i].as_str();
        let found = probe(s);
        proof {
            let old_probes = probes;
            probes = probes.push(found);
            assert forall|j: int| 0 <= j < probes.len() implies #[trigger] answers(
                probe,
                cm[j],
                probes[j],
            ) by {
                if j < i {
                    assert(probes[j] == old_probes[j]);
                    assert(answers(probe, cm[j], old_probes[j]));
                } else {
                    assert(s@ == cm[j]);
                    assert(call_ensures(probe, (s,), probes[j]));
                }
            }
        }
        if found {
            proof {
                lemma_first_existing_at(cm, probes, i as int);
            }
            return Some(cands[i].clone());
        }
        i = i + 1;
    }
    proof {
        lemma_first_existing_none(cm, probes);
    }
    None
}

/// The probes made after a launch: one after each wait, stopping at the
/// first that finds the app up, or after `tries` of them.
pub open spec fn polled(later: Seq<bool>, tries: nat) -> bool {
    &&& later.len() <= tries
    &&& forall|j: int| 0 <= j < later.len() - 1 ==> !#[trigger] later[j]
    &&& (later.len() == tries || later.last())
}

/// Whether the app ended up reachable: it was up at the first probe, or it
/// launched and one of the later probes found it.
pub open spec fn launch_outcome(first: bool, launched: bool, later: Seq<bool>) -> bool {
    first || (launched && later.len() > 0 && later.last())
}

/// Ensures a reachable app, launching it if it is not already up: probes
/// once; when down, launches; when the launch started, waits and probes up
/// to `tries` times. The probe, launch and wait are injected, so the
/// retry logic runs without a real subprocess, socket or clock.
pub fn ensure_running<L: Fn() -> bool, S: Fn() -> bool, Z: Fn()>(
    is_live: L,
    launch: S,
    sleep: Z,
    tries: u32,
) -> (r: bool)
    requires
        call_requires(is_live, ()),
        call_requires(launch, ()),
        call_requires(sleep, ()),
    ensures
        exists|first: bool, launched: bool, later: Seq<bool>|
            {
                &&& call_ensures(is_live, (), first)
                &&& (!first ==> call_ensures(launch, (), launched))
                &&& (first || !launched ==> later.len() == 0)
                &&& (!first && launched ==> polled(later, tries as nat))
                &&& forall|j: int| 0 <= j < later.len() ==> call_ensures(is_live, (), #[trigger] later[j])
                &&& r == launch_outcome(first, launched, later)
            },
{
    let first = is_live();
    if first {
        assert(launch_outcome(first, false, seq![]));
        return true;
    }
    let launched = launch();
    if !launched {
        assert(!launch_outcome(first, launched, seq![]));
        return false;
    }
    let ghost mut later: Seq<bool> = seq![];
    let mut k: u32 = 0;
    while k < tries
        invariant
            k <= tries,
            later.len() == k,
            forall|j: int| 0 <= j < later.len() ==> !#[trigger] later[j],
            forall|j: int| 0 <= j < later.len() ==> call_ensures(is_live, (), #[trigger] later[j]),
            call_requires(is_live, ()),
            call_requires(sleep, ()),
            !first,
            launched,
            call_ensures(is_live, (), first),
            call_ensures(launch, (), launched),
        decreases tries - k,
    {
        sleep();
        let up = is_live();
        proof {
            later = later.push(up);
        }
        if up {
            assert(polled(later, tries as nat));
            assert(launch_outcome(first, launched, later));
            return true;
        }
        k = k + 1;
    }
    assert(polled(later, tries as nat));
    assert(!launch_outcome(first, launched, later));
    false
}

/// The file name of executable `stem` on the platform: `<stem>.exe` on
/// Windows, `<stem>` elsewhere.
pub fn executable_name(stem: &str, windows: bool) -> (r: String)
    ensures
        r@ == if windows {
            stem@ + ".exe"@
        } else {
            stem@
        },
{
    if windows {
        let mut v = chars_of(stem);
        push_str(&mut v, ".exe");
        string_of(v.as_slice())
    } else {
        stem.to_owned()
    }
}

} // verus!
