//! The `clipboard` plugin: reading and writing the system clipboard through the
//! binaries of the graphical session. Binaries are started with an argument
//! list, never a shell.

use crate::action::{
    not_found, replies_error, replies_not_found, response_envelope, ActionReply,
};
use crate::fields::{is_blank, join, joined, trim, trimmed};
use crate::number::{dec, decimal};
use crate::settings::{positive_setting, read_positive};
use crate::text::{
    byte_count, byte_len, contains, has_infix, join2, join3, opt_text, outcome_view, push_text,
    same, texts,
};
use crate::trusted::{
    json_quote, json_quoted, json_text_at, json_text_member, lossy_text, utf8_lossy, utf8_text,
};
use vstd::prelude::*;

verus! {

pub const PROVIDER_ENV: &'static str = "CLIPBOARD_PLUGIN_PROVIDER";

pub const TIMEOUT_MS_ENV: &'static str = "CLIPBOARD_PLUGIN_TIMEOUT_MS";

pub const MAX_BYTES_ENV: &'static str = "CLIPBOARD_PLUGIN_MAX_BYTES";

pub const DEFAULT_TIMEOUT_MS: u64 = 5_000;

pub const DEFAULT_MAX_BYTES: usize = 1_048_576;

// ---------------------------------------------------------------------------
// Sessions
// ---------------------------------------------------------------------------

/// A kind of graphical session.
#[derive(Debug, Clone, Copy, PartialEq, Eq, Structural)]
pub enum Session {
    Wayland,
    X11,
}

/// The name of a session.
pub open spec fn session_name(s: Session) -> Seq<char> {
    match s {
        Session::Wayland => "wayland"@,
        Session::X11 => "x11"@,
    }
}

impl Session {
    /// The name of the session.
    pub fn as_str(&self) -> (r: &'static str)
        ensures
            r@ == session_name(*self),
            *self == Session::Wayland ==> r@ == "wayland"@,
            *self == Session::X11 ==> r@ == "x11"@,
    {
        match self {
            Session::Wayland => "wayland",
            Session::X11 => "x11",
        }
    }
}

/// Whether a setting holds more than blanks.
pub open spec fn is_set(value: Option<&str>) -> bool {
    value matches Some(s) && trimmed(s@).len() > 0
}

/// The session that the environment tells of: a Wayland display wins, then an
/// explicit `x11`, then any X display.
pub open spec fn session_of(
    wayland_display: Option<&str>,
    session_type: Option<&str>,
    display: Option<&str>,
) -> Option<Session> {
    if is_set(wayland_display) {
        Some(Session::Wayland)
    } else if (session_type matches Some(s) && trimmed(s@) == "x11"@) || is_set(display) {
        Some(Session::X11)
    } else {
        None
    }
}

/// A Wayland display means Wayland, whatever else is set; otherwise a session type of
/// `x11`, or an X display, means X11; otherwise there is no session. Blank settings
/// count for nothing.
pub proof fn lemma_which_session_it_is(
    wayland_display: Option<&str>,
    session_type: Option<&str>,
    display: Option<&str>,
)
    ensures
        ({
            let s = session_of(wayland_display, session_type, display);
            &&& s == Some(Session::Wayland) <==> wayland_display is Some && trimmed(
                wayland_display->0@,
            ).len() > 0
            &&& s == Some(Session::X11) <==> (wayland_display is None || trimmed(
                wayland_display->0@,
            ).len() == 0) && ((session_type is Some && trimmed(session_type->0@) == "x11"@) || (
            display is Some && trimmed(display->0@).len() > 0))
        }),
{
}

/// The session that the environment tells of.
pub fn detect_session(
    wayland_display: Option<&str>,
    session_type: Option<&str>,
    display: Option<&str>,
) -> (r: Result<Session, String>)
    ensures
        match r {
            Ok(s) => session_of(wayland_display, session_type, display) == Some(s),
            Err(e) => session_of(wayland_display, session_type, display) is None && e@
                == "ERR_CLIPBOARD_NO_SESSION: no graphical session detected (set WAYLAND_DISPLAY or DISPLAY)"@,
        },
{
    if let Some(w) = wayland_display {
        if !is_blank(w) {
            return Ok(Session::Wayland);
        }
    }
    if let Some(t) = session_type {
        if same(trim(t).as_str(), "x11") {
            return Ok(Session::X11);
        }
    }
    if let Some(d) = display {
        if !is_blank(d) {
            return Ok(Session::X11);
        }
    }
    Err(
        "ERR_CLIPBOARD_NO_SESSION: no graphical session detected (set WAYLAND_DISPLAY or DISPLAY)".to_owned(),
    )
}

/// Which session the operator wants to be assumed.
#[derive(Debug, Clone, Copy, PartialEq, Eq, Structural)]
pub enum ProviderPref {
    Auto,
    Wayland,
    X11,
}

/// The preference of that name; nothing named is `auto`.
pub open spec fn pref_named(s: Option<Seq<char>>) -> Option<ProviderPref> {
    let name = match s {
        Some(s) => trimmed(s),
        None => Seq::empty(),
    };
    if name.len() == 0 || name == "auto"@ {
        Some(ProviderPref::Auto)
    } else if name == "wayland"@ {
        Some(ProviderPref::Wayland)
    } else if name == "x11"@ {
        Some(ProviderPref::X11)
    } else {
        None
    }
}

/// Preferences are called `auto`, `wayland` and `x11`, blanks around them aside; nothing
/// named is `auto`, and other names are none.
pub proof fn lemma_what_preferences_are_called(name: Seq<char>)
    requires
        trimmed(name) == name,
    ensures
        pref_named(None) == Some(ProviderPref::Auto),
        name.len() == 0 || name == "auto"@ <==> pref_named(Some(name)) == Some(ProviderPref::Auto),
        name == "wayland"@ <==> pref_named(Some(name)) == Some(ProviderPref::Wayland),
        name == "x11"@ <==> pref_named(Some(name)) == Some(ProviderPref::X11),
{
    reveal_strlit("auto");
    reveal_strlit("wayland");
    reveal_strlit("x11");
    assert("auto"@.len() == 4 && "wayland"@.len() == 7 && "x11"@.len() == 3);
}

/// The preference of that name.
pub fn parse_provider_pref(s: Option<&str>) -> (r: Result<ProviderPref, String>)
    ensures
        ({
            let named = pref_named(
                match s {
                    Some(s) => Some(s@),
                    None => None,
                },
            );
            match r {
                Ok(p) => named == Some(p),
                Err(e) => named is None && e@
                    == "ERR_CLIPBOARD_BAD_PARAMS: invalid CLIPBOARD_PLUGIN_PROVIDER '"@ + trimmed(
                    s->0@,
                ) + "' (expected auto/wayland/x11)"@,
            }
        }),
{
    let name = match s {
        Some(s) => trim(s),
        None => String::new(),
    };
    if name.as_str().is_empty() || same(name.as_str(), "auto") {
        Ok(ProviderPref::Auto)
    } else if same(name.as_str(), "wayland") {
        Ok(ProviderPref::Wayland)
    } else if same(name.as_str(), "x11") {
        Ok(ProviderPref::X11)
    } else {
        Err(
            join3(
                "ERR_CLIPBOARD_BAD_PARAMS: invalid CLIPBOARD_PLUGIN_PROVIDER '",
                name.as_str(),
                "' (expected auto/wayland/x11)",
            ),
        )
    }
}

/// The operator's policy.
#[derive(Debug, Clone, Copy, PartialEq, Eq, Structural)]
pub struct Config {
    pub timeout_ms: u64,
    pub max_bytes: usize,
    pub provider_pref: ProviderPref,
}

impl Config {
    /// The policy from the values of the `CLIPBOARD_PLUGIN_*` settings. A bad
    /// preference counts as `auto`.
    pub fn from_env(
        timeout_ms: &Option<String>,
        max_bytes: &Option<String>,
        provider: &Option<String>,
    ) -> (r: Config)
        ensures
            r.timeout_ms == positive_setting(
                *timeout_ms,
                u64::MAX as nat,
                DEFAULT_TIMEOUT_MS as nat,
            ),
            r.max_bytes == positive_setting(
                *max_bytes,
                usize::MAX as nat,
                DEFAULT_MAX_BYTES as nat,
            ),
            r.provider_pref == match pref_named(opt_text(*provider)) {
                Some(p) => p,
                None => ProviderPref::Auto,
            },
    {
        let max: u64 = read_positive(max_bytes, usize::MAX as u64, DEFAULT_MAX_BYTES as u64);
        let provider_pref = match provider {
            Some(p) => match parse_provider_pref(Some(p.as_str())) {
                Ok(p) => p,
                Err(_) => ProviderPref::Auto,
            },
            None => ProviderPref::Auto,
        };
        Config {
            timeout_ms: read_positive(timeout_ms, u64::MAX, DEFAULT_TIMEOUT_MS),
            max_bytes: max as usize,
            provider_pref,
        }
    }
}

/// The session that is used: the operator's choice, or else the one that was
/// detected.
pub open spec fn effective(pref: ProviderPref, session: Session) -> Session {
    match pref {
        ProviderPref::Auto => session,
        ProviderPref::Wayland => Session::Wayland,
        ProviderPref::X11 => Session::X11,
    }
}

fn effective_session(pref: ProviderPref, session: Session) -> (r: Session)
    ensures
        r == effective(pref, session),
{
    match pref {
        ProviderPref::Auto => session,
        ProviderPref::Wayland => Session::Wayland,
        ProviderPref::X11 => Session::X11,
    }
}

// ---------------------------------------------------------------------------
// Binaries
// ---------------------------------------------------------------------------

/// A binary with its arguments, and whether text is fed to it.
#[derive(Debug, PartialEq, Eq)]
pub struct Invocation {
    pub bin: &'static str,
    pub args: Vec<&'static str>,
    pub stdin: bool,
}

/// Arguments as texts.
pub open spec fn arg_texts(args: Seq<&'static str>) -> Seq<Seq<char>> {
    Seq::new(args.len(), |i: int| args[i]@)
}

/// What an invocation consists of.
pub open spec fn invokes(
    inv: Invocation,
    bin: Seq<char>,
    args: Seq<Seq<char>>,
    stdin: bool,
) -> bool {
    inv.bin@ == bin && arg_texts(inv.args@) == args && inv.stdin == stdin
}

/// Whether `chain` are the readers of a session, to be tried in turn.
pub open spec fn are_readers(session: Session, chain: Seq<Invocation>) -> bool {
    match session {
        Session::Wayland => chain.len() == 1 && invokes(
            chain[0],
            "wl-paste"@,
            seq!["--no-newline"@],
            false,
        ),
        Session::X11 => chain.len() == 2 && invokes(
            chain[0],
            "xclip"@,
            seq!["-selection"@, "clipboard"@, "-out"@],
            false,
        ) && invokes(chain[1], "xsel"@, seq!["--clipboard"@, "--output"@], false),
    }
}

/// Whether `chain` are the writers of a session, to be tried in turn.
pub open spec fn are_writers(session: Session, chain: Seq<Invocation>) -> bool {
    match session {
        Session::Wayland => chain.len() == 1 && invokes(chain[0], "wl-copy"@, Seq::empty(), true),
        Session::X11 => chain.len() == 2 && invokes(
            chain[0],
            "xclip"@,
            seq!["-selection"@, "clipboard"@, "-in"@],
            true,
        ) && invokes(chain[1], "xsel"@, seq!["--clipboard"@, "--input"@], true),
    }
}

/// A session is read with its own tools, which print the clipboard, and written with
/// its own tools, which are fed the text: `wl-paste` and `wl-copy` under Wayland,
/// `xclip` and then `xsel` under X11.
pub proof fn lemma_which_tools_a_session_has(
    session: Session,
    readers: Seq<Invocation>,
    writers: Seq<Invocation>,
)
    requires
        are_readers(session, readers),
        are_writers(session, writers),
    ensures
        session == Session::Wayland ==> readers.len() == 1 && readers[0].bin@ == "wl-paste"@
            && arg_texts(readers[0].args@) == seq!["--no-newline"@] && writers.len() == 1
            && writers[0].bin@ == "wl-copy"@ && writers[0].args@.len() == 0,
        session == Session::X11 ==> readers.len() == 2 && readers[0].bin@ == "xclip"@ && arg_texts(
            readers[0].args@,
        ) == seq!["-selection"@, "clipboard"@, "-out"@] && readers[1].bin@ == "xsel"@ && arg_texts(
            readers[1].args@,
        ) == seq!["--clipboard"@, "--output"@] && writers.len() == 2 && writers[0].bin@ == "xclip"@
            && arg_texts(writers[0].args@) == seq!["-selection"@, "clipboard"@, "-in"@]
            && writers[1].bin@ == "xsel"@ && arg_texts(writers[1].args@) == seq![
            "--clipboard"@,
            "--input"@,
        ],
        forall|i: int| 0 <= i < readers.len() ==> !(#[trigger] readers[i]).stdin,
        forall|i: int| 0 <= i < writers.len() ==> (#[trigger] writers[i]).stdin,
{
    if session == Session::Wayland {
        assert(arg_texts(writers[0].args@).len() == 0);
    }
}

fn invocation1(bin: &'static str, a: &'static str, stdin: bool) -> (r: Invocation)
    ensures
        invokes(r, bin@, seq![a@], stdin),
{
    let mut args: Vec<&'static str> = Vec::new();
    args.push(a);
    assert(arg_texts(args@) =~= seq![a@]);
    Invocation { bin, args, stdin }
}

fn invocation2(bin: &'static str, a: &'static str, b: &'static str, stdin: bool) -> (r: Invocation)
    ensures
        invokes(r, bin@, seq![a@, b@], stdin),
{
    let mut args: Vec<&'static str> = Vec::new();
    args.push(a);
    args.push(b);
    assert(arg_texts(args@) =~= seq![a@, b@]);
    Invocation { bin, args, stdin }
}

fn invocation3(
    bin: &'static str,
    a: &'static str,
    b: &'static str,
    c: &'static str,
    stdin: bool,
) -> (r: Invocation)
    ensures
        invokes(r, bin@, seq![a@, b@, c@], stdin),
{
    let mut args: Vec<&'static str> = Vec::new();
    args.push(a);
    args.push(b);
    args.push(c);
    assert(arg_texts(args@) =~= seq![a@, b@, c@]);
    Invocation { bin, args, stdin }
}

/// The readers of a session, to be tried in turn.
pub fn read_chain(session: Session) -> (r: Vec<Invocation>)
    ensures
        are_readers(session, r@),
        session == Session::Wayland ==> r@.len() == 1 && r@[0].bin@ == "wl-paste"@ && !r@[0].stdin
            && arg_texts(r@[0].args@) == seq!["--no-newline"@],
        session == Session::X11 ==> r@.len() == 2 && r@[0].bin@ == "xclip"@ && r@[1].bin@ == "xsel"@
            && !r@[0].stdin && !r@[1].stdin && arg_texts(r@[0].args@) == seq![
            "-selection"@,
            "clipboard"@,
            "-out"@,
        ] && arg_texts(r@[1].args@) == seq!["--clipboard"@, "--output"@],
{
    let mut chain: Vec<Invocation> = Vec::new();
    match session {
        Session::Wayland => {
            chain.push(invocation1("wl-paste", "--no-newline", false));
        },
        Session::X11 => {
            chain.push(invocation3("xclip", "-selection", "clipboard", "-out", false));
            chain.push(invocation2("xsel", "--clipboard", "--output", false));
        },
    }
    chain
}

/// The writers of a session, to be tried in turn.
pub fn write_chain(session: Session) -> (r: Vec<Invocation>)
    ensures
        are_writers(session, r@),
        session == Session::Wayland ==> r@.len() == 1 && r@[0].bin@ == "wl-copy"@ && r@[0].stdin
            && r@[0].args@.len() == 0,
        session == Session::X11 ==> r@.len() == 2 && r@[0].bin@ == "xclip"@ && r@[1].bin@ == "xsel"@
            && r@[0].stdin && r@[1].stdin && arg_texts(r@[0].args@) == seq![
            "-selection"@,
            "clipboard"@,
            "-in"@,
        ] && arg_texts(r@[1].args@) == seq!["--clipboard"@, "--input"@],
{
    let mut chain: Vec<Invocation> = Vec::new();
    match session {
        Session::Wayland => {
            let args: Vec<&'static str> = Vec::new();
            assert(arg_texts(args@) =~= Seq::empty());
            chain.push(Invocation { bin: "wl-copy", args, stdin: true });
        },
        Session::X11 => {
            chain.push(invocation3("xclip", "-selection", "clipboard", "-in", true));
            chain.push(invocation2("xsel", "--clipboard", "--input", true));
        },
    }
    chain
}

/// How running a binary went.
#[derive(Debug, PartialEq, Eq)]
pub enum RunOutcome {
    /// The binary is not installed.
    NotFound,
    SpawnFailed { error: String },
    /// Text could not be fed to the binary.
    StdinFailed { error: String },
    TimedOut,
    WaitFailed { error: String },
    /// `status` is how the system words the exit status.
    Exited { success: bool, status: String, stdout: Vec<u8>, stderr: Vec<u8> },
}

/// What is wrong with how running a binary went, if anything.
pub open spec fn run_error(bin: Seq<char>, timeout_ms: u64, out: RunOutcome) -> Option<Seq<char>> {
    match out {
        RunOutcome::NotFound => Some(
            "ERR_CLIPBOARD_PROVIDER_MISSING: binary '"@ + bin + "' not found on PATH"@,
        ),
        RunOutcome::SpawnFailed { error } => Some(
            "ERR_CLIPBOARD_WRITE_FAILED: spawn '"@ + bin + "' failed: "@ + error@,
        ),
        RunOutcome::StdinFailed { error } => Some(
            "ERR_CLIPBOARD_WRITE_FAILED: stdin to '"@ + bin + "' failed: "@ + error@,
        ),
        RunOutcome::TimedOut => Some(
            "ERR_CLIPBOARD_TIMEOUT: '"@ + bin + "' exceeded "@ + decimal(timeout_ms as nat) + "ms"@,
        ),
        RunOutcome::WaitFailed { error } => Some(
            "ERR_CLIPBOARD_READ_FAILED: wait '"@ + bin + "' failed: "@ + error@,
        ),
        RunOutcome::Exited { success, status, stdout, stderr } => if success {
            None
        } else {
            Some(
                "ERR_CLIPBOARD_READ_FAILED: '"@ + bin + "' exited with "@ + status@ + ": "@
                    + if trimmed(lossy_text(stderr@)).len() == 0 {
                    "(no stderr)"@
                } else {
                    trimmed(lossy_text(stderr@))
                },
            )
        },
    }
}

proof fn lemma_missing_is_said(bin: Seq<char>)
    ensures
        has_infix(
            "ERR_CLIPBOARD_PROVIDER_MISSING: binary '"@ + bin + "' not found on PATH"@,
            "ERR_CLIPBOARD_PROVIDER_MISSING"@,
        ),
{
    let marker = "ERR_CLIPBOARD_PROVIDER_MISSING"@;
    let head = "ERR_CLIPBOARD_PROVIDER_MISSING: binary '"@;
    reveal_strlit("ERR_CLIPBOARD_PROVIDER_MISSING");
    reveal_strlit("ERR_CLIPBOARD_PROVIDER_MISSING: binary '");
    let e = head + bin + "' not found on PATH"@;
    assert(head.subrange(0, marker.len() as int) =~= marker);
    assert(e.subrange(0, marker.len() as int) =~= marker);
    assert(crate::text::occurs_at(e, marker, 0));
}

/// Only a tool that ran and succeeded has a result; every other outcome is a complaint
/// that names the tool.
pub proof fn lemma_only_success_has_a_result(bin: Seq<char>, timeout_ms: u64, out: RunOutcome)
    ensures
        run_error(bin, timeout_ms, out) is None <==> out is Exited && out->success,
        out is TimedOut ==> run_error(bin, timeout_ms, out) == Some(
            "ERR_CLIPBOARD_TIMEOUT: '"@ + bin + "' exceeded "@ + decimal(timeout_ms as nat) + "ms"@,
        ),
{
}

/// What running a binary comes to: what it printed, or a complaint.
pub fn run_result(bin: &str, timeout_ms: u64, out: RunOutcome) -> (r: Result<Vec<u8>, String>)
    ensures
        match r {
            Ok(b) => run_error(bin@, timeout_ms, out) is None && (out matches RunOutcome::Exited {
                stdout,
                ..
            } && b == stdout),
            Err(e) => run_error(bin@, timeout_ms, out) == Some(e@),
        },
        r is Ok <==> out is Exited && out->success,
        out is NotFound ==> says_missing(r),
{
    proof {
        lemma_missing_is_said(bin@);
    }
    match out {
        RunOutcome::NotFound => Err(
            join3("ERR_CLIPBOARD_PROVIDER_MISSING: binary '", bin, "' not found on PATH"),
        ),
        RunOutcome::SpawnFailed { error } => {
            let mut e = join3("ERR_CLIPBOARD_WRITE_FAILED: spawn '", bin, "' failed: ");
            e.append(error.as_str());
            Err(e)
        },
        RunOutcome::StdinFailed { error } => {
            let mut e = join3("ERR_CLIPBOARD_WRITE_FAILED: stdin to '", bin, "' failed: ");
            e.append(error.as_str());
            Err(e)
        },
        RunOutcome::TimedOut => {
            let mut e = join3("ERR_CLIPBOARD_TIMEOUT: '", bin, "' exceeded ");
            e.append(dec(timeout_ms).as_str());
            e.append("ms");
            Err(e)
        },
        RunOutcome::WaitFailed { error } => {
            let mut e = join3("ERR_CLIPBOARD_READ_FAILED: wait '", bin, "' failed: ");
            e.append(error.as_str());
            Err(e)
        },
        RunOutcome::Exited { success, status, stdout, stderr } => {
            if success {
                return Ok(stdout);
            }
            let detail = trim(utf8_lossy(&stderr).as_str());
            let mut e = join3("ERR_CLIPBOARD_READ_FAILED: '", bin, "' exited with ");
            e.append(status.as_str());
            e.append(": ");
            if detail.as_str().is_empty() {
                e.append("(no stderr)");
            } else {
                e.append(detail.as_str());
            }
            Err(e)
        },
    }
}

// ---------------------------------------------------------------------------
// Trying binaries in turn
// ---------------------------------------------------------------------------

/// Whether a result says that the binary is not installed.
pub open spec fn says_missing(r: Result<Vec<u8>, String>) -> bool {
    r matches Err(e) && has_infix(e@, "ERR_CLIPBOARD_PROVIDER_MISSING"@)
}

/// The complaint that no binary of the chain is installed.
pub open spec fn none_left(what: Seq<char>, session: Session, chain: Seq<Invocation>) -> Seq<char> {
    "ERR_CLIPBOARD_PROVIDER_MISSING: no working "@ + what + " for "@ + session_name(session)
        + " (tried: "@ + joined(Seq::new(chain.len(), |i: int| chain[i].bin@), ", "@) + ")"@
}

/// Binaries that are tried in turn, up to the first that is installed.
#[derive(Debug, PartialEq, Eq)]
pub struct Attempts {
    pub chain: Vec<Invocation>,
    /// The one to run next; all before it are not installed.
    pub at: usize,
}

/// What to do after a binary ran.
#[derive(Debug, PartialEq, Eq)]
pub enum Verdict {
    /// It is not installed: run the next one.
    Next,
    /// It is not installed and was the last.
    NoneLeft,
    /// It ran, or failed for good: this is what came of it.
    Settled { result: Result<Vec<u8>, String> },
}

impl Attempts {
    /// Takes note of how the current binary ran.
    pub fn note(&mut self, result: Result<Vec<u8>, String>) -> (r: Verdict)
        requires
            old(self).at < old(self).chain@.len(),
        ensures
            final(self).chain == old(self).chain,
            if says_missing(result) {
                if old(self).at + 1 < old(self).chain@.len() {
                    r is Next && final(self).at == old(self).at + 1
                } else {
                    r is NoneLeft && final(self).at == old(self).at
                }
            } else {
                r == (Verdict::Settled { result }) && final(self).at == old(self).at
            },
    {
        let missing = match &result {
            Err(e) => contains(e.as_str(), "ERR_CLIPBOARD_PROVIDER_MISSING"),
            Ok(_) => false,
        };
        if !missing {
            return Verdict::Settled { result };
        }
        if self.at < self.chain.len() - 1 {
            self.at = self.at + 1;
            Verdict::Next
        } else {
            Verdict::NoneLeft
        }
    }
}

/// The names of the binaries in a chain.
fn bins_of(chain: &Vec<Invocation>) -> (r: Vec<String>)
    ensures
        texts(r@) == Seq::new(chain@.len(), |i: int| chain@[i].bin@),
{
    let mut out: Vec<String> = Vec::new();
    let mut i: usize = 0;
    while i < chain.len()
        invariant
            i <= chain.len(),
            out@.len() == i,
            forall|j: int| 0 <= j < i ==> (#[trigger] out@[j])@ == chain@[j].bin@,
        decreases chain.len() - i,
    {
        out.push(chain[i].bin.to_owned());
        i += 1;
    }
    out
}

fn nothing_left(what: &str, session: Session, chain: &Vec<Invocation>) -> (r: String)
    ensures
        r@ == none_left(what@, session, chain@),
{
    let mut e = join3("ERR_CLIPBOARD_PROVIDER_MISSING: no working ", what, " for ");
    e.append(session.as_str());
    e.append(" (tried: ");
    e.append(join(&bins_of(chain), ", ").as_str());
    e.append(")");
    e
}

/// The complaint about too much text.
pub open spec fn too_large(n: nat, max: nat) -> Seq<char> {
    "ERR_CLIPBOARD_TOO_LARGE: "@ + decimal(n) + " bytes exceeds CLIPBOARD_PLUGIN_MAX_BYTES="@
        + decimal(max)
}

fn too_large_error(n: usize, max: usize) -> (r: String)
    ensures
        r@ == too_large(n as nat, max as nat),
{
    let mut e = join2("ERR_CLIPBOARD_TOO_LARGE: ", dec(n as u64).as_str());
    e.append(" bytes exceeds CLIPBOARD_PLUGIN_MAX_BYTES=");
    e.append(dec(max as u64).as_str());
    e
}

// ---------------------------------------------------------------------------
// Reading
// ---------------------------------------------------------------------------

/// Starts a read.
pub fn begin_read(cfg: &Config, session: Session) -> (r: Attempts)
    ensures
        r.at == 0,
        are_readers(effective(cfg.provider_pref, session), r.chain@),
{
    Attempts { chain: read_chain(effective_session(cfg.provider_pref, session)), at: 0 }
}

/// The reply to a read that `bin` answered with `bytes`.
pub open spec fn read_reply(bytes: Seq<u8>, bin: Seq<char>, max_bytes: nat) -> Result<
    Seq<char>,
    Seq<char>,
> {
    if bytes.len() > max_bytes {
        Err(too_large(bytes.len(), max_bytes))
    } else if !vstd::utf8::valid_utf8(bytes) {
        Err("ERR_CLIPBOARD_READ_FAILED: clipboard content is not valid UTF-8"@)
    } else if vstd::utf8::decode_utf8(bytes).len() == 0 {
        Ok("{\"found\":false,\"provider\":"@ + json_quoted(bin) + ",\"text\":null}"@)
    } else {
        Ok(
            "{\"found\":true,\"provider\":"@ + json_quoted(bin) + ",\"text\":"@ + json_quoted(
                vstd::utf8::decode_utf8(bytes),
            ) + "}"@,
        )
    }
}

/// A read hands out the clipboard as it is: text that is valid and inside the cap in
/// full, an empty clipboard as not found, and anything else is refused.
pub proof fn lemma_what_a_read_hands_out(bytes: Seq<u8>, bin: Seq<char>, max_bytes: nat)
    ensures
        read_reply(bytes, bin, max_bytes) is Ok <==> bytes.len() <= max_bytes
            && vstd::utf8::valid_utf8(bytes),
        bytes.len() <= max_bytes && vstd::utf8::valid_utf8(bytes) && vstd::utf8::decode_utf8(
            bytes,
        ).len() > 0 ==> read_reply(bytes, bin, max_bytes) == Ok::<Seq<char>, Seq<char>>(
            "{\"found\":true,\"provider\":"@ + json_quoted(bin) + ",\"text\":"@ + json_quoted(
                vstd::utf8::decode_utf8(bytes),
            ) + "}"@,
        ),
        bytes.len() <= max_bytes && vstd::utf8::valid_utf8(bytes) && vstd::utf8::decode_utf8(
            bytes,
        ).len() == 0 ==> read_reply(bytes, bin, max_bytes) == Ok::<Seq<char>, Seq<char>>(
            "{\"found\":false,\"provider\":"@ + json_quoted(bin) + ",\"text\":null}"@,
        ),
{
}

/// Takes note of how the current reader ran. Gives the reply where the read is
/// over.
pub fn after_read(
    attempts: &mut Attempts,
    result: Result<Vec<u8>, String>,
    cfg: &Config,
    session: Session,
) -> (r: Option<Result<String, String>>)
    requires
        old(attempts).at < old(attempts).chain@.len(),
    ensures
        final(attempts).chain == old(attempts).chain,
        ({
            let chain = old(attempts).chain@;
            let at = old(attempts).at;
            if says_missing(result) {
                if at + 1 < chain.len() {
                    r is None && final(attempts).at == at + 1
                } else {
                    r matches Some(out) && outcome_view(out) == Err::<Seq<char>, Seq<char>>(
                        none_left("reader"@, effective(cfg.provider_pref, session), chain),
                    )
                }
            } else {
                r matches Some(out) && outcome_view(out) == match result {
                    Ok(bytes) => read_reply(
                        bytes@,
                        chain[at as int].bin@,
                        cfg.max_bytes as nat,
                    ),
                    Err(e) => Err(e@),
                }
            }
        }),
{
    let bin = attempts.chain[attempts.at].bin;
    match attempts.note(result) {
        Verdict::Next => None,
        Verdict::NoneLeft => Some(
            Err(
                nothing_left(
                    "reader",
                    effective_session(cfg.provider_pref, session),
                    &attempts.chain,
                ),
            ),
        ),
        Verdict::Settled { result } => match result {
            Err(e) => Some(Err(e)),
            Ok(bytes) => {
                if bytes.len() > cfg.max_bytes {
                    return Some(Err(too_large_error(bytes.len(), cfg.max_bytes)));
                }
                match utf8_text(bytes) {
                    Err(_) => Some(
                        Err(
                            "ERR_CLIPBOARD_READ_FAILED: clipboard content is not valid UTF-8".to_owned(),
                        ),
                    ),
                    Ok(text) => if text.as_str().is_empty() {
                        Some(
                            Ok(
                                join3(
                                    "{\"found\":false,\"provider\":",
                                    json_quote(bin).as_str(),
                                    ",\"text\":null}",
                                ),
                            ),
                        )
                    } else {
                        let mut t = join2("{\"found\":true,\"provider\":", json_quote(bin).as_str());
                        t.append(",\"text\":");
                        t.append(json_quote(text.as_str()).as_str());
                        t.append("}");
                        Some(Ok(t))
                    },
                }
            },
        },
    }
}

// ---------------------------------------------------------------------------
// Writing
// ---------------------------------------------------------------------------

/// What is wrong with a text to write, if anything.
pub open spec fn write_error(text: Seq<char>, max_bytes: nat) -> Option<Seq<char>> {
    if text.len() == 0 {
        Some(
            "ERR_CLIPBOARD_BAD_PARAMS: 'text' must be a non-empty string (empty writes are rejected to avoid accidental clears)"@,
        )
    } else if byte_len(text) > max_bytes {
        Some(too_large(byte_len(text), max_bytes))
    } else {
        None
    }
}

/// A text can be written where it is not empty and inside the cap; the reply counts its
/// bytes and names the tool.
pub proof fn lemma_what_can_be_written(text: Seq<char>, max_bytes: nat, bin: Seq<char>)
    ensures
        write_error(text, max_bytes) is None <==> text.len() > 0 && byte_len(text) <= max_bytes,
        write_reply(bin, text) == "{\"bytes\":"@ + decimal(byte_len(text))
            + ",\"ok\":true,\"provider\":"@ + json_quoted(bin) + "}"@,
{
}

/// Starts a write; a bad text starts nothing.
pub fn begin_write(cfg: &Config, session: Session, text: &str) -> (r: Result<Attempts, String>)
    ensures
        match r {
            Ok(a) => write_error(text@, cfg.max_bytes as nat) is None && a.at == 0 && are_writers(
                effective(cfg.provider_pref, session),
                a.chain@,
            ),
            Err(e) => write_error(text@, cfg.max_bytes as nat) == Some(e@),
        },
        r is Ok <==> text@.len() > 0 && byte_len(text@) <= cfg.max_bytes,
{
    if text.is_empty() {
        return Err(
            "ERR_CLIPBOARD_BAD_PARAMS: 'text' must be a non-empty string (empty writes are rejected to avoid accidental clears)".to_owned(),
        );
    }
    let n: usize = byte_count(text);
    if n > cfg.max_bytes {
        return Err(too_large_error(n, cfg.max_bytes));
    }
    Ok(Attempts { chain: write_chain(effective_session(cfg.provider_pref, session)), at: 0 })
}

/// The reply to a write that `bin` performed.
pub open spec fn write_reply(bin: Seq<char>, text: Seq<char>) -> Seq<char> {
    "{\"bytes\":"@ + decimal(byte_len(text)) + ",\"ok\":true,\"provider\":"@ + json_quoted(bin)
        + "}"@
}

/// Takes note of how the current writer ran. Gives the reply where the write is
/// over. `session` is the one that was detected.
pub fn after_write(
    attempts: &mut Attempts,
    result: Result<Vec<u8>, String>,
    session: Session,
    text: &str,
) -> (r: Option<Result<String, String>>)
    requires
        old(attempts).at < old(attempts).chain@.len(),
    ensures
        final(attempts).chain == old(attempts).chain,
        ({
            let chain = old(attempts).chain@;
            let at = old(attempts).at;
            if says_missing(result) {
                if at + 1 < chain.len() {
                    r is None && final(attempts).at == at + 1
                } else {
                    r matches Some(out) && outcome_view(out) == Err::<Seq<char>, Seq<char>>(
                        none_left("writer"@, session, chain),
                    )
                }
            } else {
                r matches Some(out) && outcome_view(out) == match result {
                    Ok(_) => Ok::<Seq<char>, Seq<char>>(write_reply(chain[at as int].bin@, text@)),
                    Err(e) => Err(e@),
                }
            }
        }),
{
    let bin = attempts.chain[attempts.at].bin;
    match attempts.note(result) {
        Verdict::Next => None,
        Verdict::NoneLeft => Some(Err(nothing_left("writer", session, &attempts.chain))),
        Verdict::Settled { result } => match result {
            Err(e) => Some(Err(e)),
            Ok(_) => {
                let mut t = join2("{\"bytes\":", dec(byte_count(text) as u64).as_str());
                t.append(",\"ok\":true,\"provider\":");
                t.append(json_quote(bin).as_str());
                t.append("}");
                Some(Ok(t))
            },
        },
    }
}

// ---------------------------------------------------------------------------
// Actions
// ---------------------------------------------------------------------------

/// Names as a JSON array.
pub open spec fn names_json(names: Seq<Seq<char>>) -> Seq<char> {
    "["@ + joined(Seq::new(names.len(), |i: int| json_quoted(names[i])), ","@) + "]"@
}

fn bins_json(chain: &Vec<Invocation>) -> (r: String)
    ensures
        r@ == names_json(Seq::new(chain@.len(), |i: int| chain@[i].bin@)),
{
    let mut out: Vec<String> = Vec::new();
    let mut i: usize = 0;
    while i < chain.len()
        invariant
            i <= chain.len(),
            out@.len() == i,
            forall|j: int| 0 <= j < i ==> (#[trigger] out@[j])@ == json_quoted(chain@[j].bin@),
        decreases chain.len() - i,
    {
        out.push(json_quote(chain[i].bin));
        i += 1;
    }
    proof {
        let names = Seq::new(chain@.len(), |i: int| chain@[i].bin@);
        assert(texts(out@) =~= Seq::new(names.len(), |i: int| json_quoted(names[i])));
    }
    join3("[", join(&out, ",").as_str(), "]")
}

/// The names of the readers of a session.
pub open spec fn reader_names(session: Session) -> Seq<Seq<char>> {
    match session {
        Session::Wayland => seq!["wl-paste"@],
        Session::X11 => seq!["xclip"@, "xsel"@],
    }
}

/// The names of the writers of a session.
pub open spec fn writer_names(session: Session) -> Seq<Seq<char>> {
    match session {
        Session::Wayland => seq!["wl-copy"@],
        Session::X11 => seq!["xclip"@, "xsel"@],
    }
}

/// The reply to `clipboard_providers`.
pub open spec fn providers_text(session: Session) -> Seq<char> {
    "{\"readers\":"@ + names_json(reader_names(session)) + ",\"session\":"@ + json_quoted(
        session_name(session),
    ) + ",\"writers\":"@ + names_json(writer_names(session)) + "}"@
}

/// The reply to `clipboard_providers`: the session with its readers and writers.
pub fn handle_providers(session: Session) -> (r: String)
    ensures
        r@ == providers_text(session),
{
    let readers = read_chain(session);
    let writers = write_chain(session);
    proof {
        assert(Seq::new(readers@.len(), |i: int| readers@[i].bin@) =~= reader_names(session));
        assert(Seq::new(writers@.len(), |i: int| writers@[i].bin@) =~= writer_names(session));
    }
    let mut s = join2("{\"readers\":", bins_json(&readers).as_str());
    s.append(",\"session\":");
    s.append(json_quote(session.as_str()).as_str());
    s.append(",\"writers\":");
    s.append(bins_json(&writers).as_str());
    s.append("}");
    s
}

/// How an action goes on.
#[derive(Debug, PartialEq, Eq)]
pub enum ClipboardStep {
    /// It is over: send this.
    Reply { reply: ActionReply },
    /// Read the clipboard of this session.
    Read { session: Session },
    /// Write to the clipboard of this session.
    Write { session: Session, text: String },
}

/// The complaint with which an action is refused, if it is.
pub open spec fn refusal(
    action: Seq<char>,
    params: Result<Option<Seq<char>>, Seq<char>>,
    session: Result<Session, String>,
) -> Option<Seq<char>> {
    if params is Err {
        Some("invalid params_json: "@ + params->Err_0)
    } else if action == "clipboard_write"@ && params->Ok_0 is None {
        Some("ERR_CLIPBOARD_BAD_PARAMS: missing or invalid `text` (non-empty string)"@)
    } else if session is Err {
        Some(session->Err_0@)
    } else {
        None
    }
}

/// Whether the plugin serves an action.
pub open spec fn is_served(action: Seq<char>) -> bool {
    action == "clipboard_read"@ || action == "clipboard_write"@ || action == "clipboard_providers"@
}

/// Whether `step` is how an action goes on, `params` being the text in its
/// parameters.
pub open spec fn goes_on(
    action_id: String,
    action: Seq<char>,
    params: Result<Option<Seq<char>>, Seq<char>>,
    session: Result<Session, String>,
    step: ClipboardStep,
) -> bool {
    if params is Ok && !is_served(action) {
        step matches ClipboardStep::Reply { reply } && replies_not_found(reply, action_id, action)
    } else if refusal(action, params, session) is Some {
        step matches ClipboardStep::Reply { reply } && replies_error(
            reply,
            action_id,
            refusal(action, params, session)->0,
        )
    } else if action == "clipboard_read"@ {
        step == (ClipboardStep::Read { session: session->Ok_0 })
    } else if action == "clipboard_write"@ {
        step matches ClipboardStep::Write { session: s, text } && s == session->Ok_0 && text@
            == params->Ok_0->0
    } else {
        step matches ClipboardStep::Reply { reply } && reply.action_id == action_id
            && reply.status == crate::action::ActionStatus::ActionOk && reply.error@.len() == 0
            && reply.data_json@ == vstd::utf8::encode_utf8(providers_text(session->Ok_0))
    }
}

/// A read reads, a write writes the given text, and a request for the tools is answered
/// with those of the session; without a session, without a text to write or with
/// parameters that do not parse an action fails, and no other action is served.
pub proof fn lemma_how_actions_go_on(
    action_id: String,
    action: Seq<char>,
    params: Result<Option<Seq<char>>, Seq<char>>,
    session: Result<Session, String>,
    step: ClipboardStep,
)
    requires
        goes_on(action_id, action, params, session, step),
    ensures
        step is Read <==> action == "clipboard_read"@ && params is Ok && session is Ok,
        step is Write <==> action == "clipboard_write"@ && params is Ok && params->Ok_0 is Some
            && session is Ok,
        step matches ClipboardStep::Read { session: s } ==> Ok::<Session, String>(s) == session,
        step matches ClipboardStep::Write { session: s, text } ==> Ok::<Session, String>(s)
            == session && text@ == params->Ok_0->0,
        step matches ClipboardStep::Reply { reply } ==> reply.action_id == action_id,
{
    reveal_strlit("clipboard_read");
    reveal_strlit("clipboard_write");
    assert("clipboard_read"@.len() == 14 && "clipboard_write"@.len() == 15);
}

/// The bytes of a text.
fn bytes_of(s: &str) -> (r: Vec<u8>)
    ensures
        r@ == vstd::utf8::encode_utf8(s@),
{
    let mut b: Vec<u8> = Vec::new();
    push_text(&mut b, s);
    b
}

/// Decides how an action goes on, its parameters having been read: `text` is the
/// text in them.
pub fn dispatch(
    action_id: String,
    action: &str,
    text: Result<Option<String>, String>,
    session: Result<Session, String>,
) -> (r: ClipboardStep)
    ensures
        goes_on(
            action_id,
            action@,
            match text {
                Ok(t) => Ok(opt_text(t)),
                Err(e) => Err(e@),
            },
            session,
            r,
        ),
{
    let text = match text {
        Ok(t) => t,
        Err(e) => return ClipboardStep::Reply {
            reply: response_envelope(
                action_id,
                Err(join2("invalid params_json: ", e.as_str())),
            ),
        },
    };
    let read = same(action, "clipboard_read");
    let write = same(action, "clipboard_write");
    if !read && !write && !same(action, "clipboard_providers") {
        return ClipboardStep::Reply { reply: not_found(action_id, action) };
    }
    let mut body = String::new();
    if write {
        match text {
            Some(t) => {
                body = t;
            },
            None => return ClipboardStep::Reply {
                reply: response_envelope(
                    action_id,
                    Err(
                        "ERR_CLIPBOARD_BAD_PARAMS: missing or invalid `text` (non-empty string)".to_owned(),
                    ),
                ),
            },
        }
    }
    let session = match session {
        Ok(s) => s,
        Err(e) => return ClipboardStep::Reply { reply: response_envelope(action_id, Err(e)) },
    };
    if read {
        proof {
            reveal_strlit("clipboard_read");
            reveal_strlit("clipboard_write");
        }
        ClipboardStep::Read { session }
    } else if write {
        proof {
            reveal_strlit("clipboard_read");
            reveal_strlit("clipboard_write");
        }
        ClipboardStep::Write { session, text: body }
    } else {
        ClipboardStep::Reply {
            reply: response_envelope(
                action_id,
                Ok(bytes_of(handle_providers(session).as_str())),
            ),
        }
    }
}

/// Decides how an action goes on. Parameters that are not JSON are refused
/// whatever the action is.
pub fn handle_action_request(
    action_id: String,
    action: &str,
    params_json: &[u8],
    session: Result<Session, String>,
) -> (r: ClipboardStep)
    ensures
        goes_on(action_id, action@, json_text_at(params_json@, "text"@), session, r),
{
    dispatch(action_id, action, json_text_member(params_json, "text"), session)
}

/// A binary that is not installed is passed over: what running it comes to says
/// that it is missing.
pub proof fn lemma_not_installed_is_passed_over(bin: Seq<char>, timeout_ms: u64, e: String)
    requires
        run_error(bin, timeout_ms, RunOutcome::NotFound) == Some(e@),
    ensures
        says_missing(Err(e)),
{
    let marker = "ERR_CLIPBOARD_PROVIDER_MISSING"@;
    let head = "ERR_CLIPBOARD_PROVIDER_MISSING: binary '"@;
    reveal_strlit("ERR_CLIPBOARD_PROVIDER_MISSING");
    reveal_strlit("ERR_CLIPBOARD_PROVIDER_MISSING: binary '");
    assert(head.subrange(0, marker.len() as int) =~= marker);
    assert(e@.subrange(0, marker.len() as int) =~= marker);
    assert(crate::text::occurs_at(e@, marker, 0));
}

/// The operator's choice of a session is followed; without one the session is the one
/// that was detected.
pub proof fn lemma_which_session_is_used(session: Session)
    ensures
        effective(ProviderPref::Auto, session) == session,
        effective(ProviderPref::Wayland, session) == Session::Wayland,
        effective(ProviderPref::X11, session) == Session::X11,
{
}

/// The operator's choice of a session overrides whatever was detected.
pub proof fn lemma_preference_overrides(pref: ProviderPref, a: Session, b: Session)
    requires
        pref != ProviderPref::Auto,
    ensures
        effective(pref, a) == effective(pref, b),
{
}

/// The complaint that no tool is left names what was looked for, the session and every
/// tool that was tried, in the order in which they were tried.
pub proof fn lemma_what_was_tried(what: Seq<char>, session: Session, chain: Seq<Invocation>)
    ensures
        session == Session::Wayland ==> none_left(what, session, chain)
            == "ERR_CLIPBOARD_PROVIDER_MISSING: no working "@ + what + " for "@ + "wayland"@
            + " (tried: "@ + joined(Seq::new(chain.len(), |i: int| chain[i].bin@), ", "@) + ")"@,
        session == Session::X11 ==> none_left(what, session, chain)
            == "ERR_CLIPBOARD_PROVIDER_MISSING: no working "@ + what + " for "@ + "x11"@
            + " (tried: "@ + joined(Seq::new(chain.len(), |i: int| chain[i].bin@), ", "@) + ")"@,
{
}

/// A refused action says why: parameters that do not parse come first, then a write
/// without text, then a session that is not there.
pub proof fn lemma_why_an_action_is_refused(
    action: Seq<char>,
    params: Result<Option<Seq<char>>, Seq<char>>,
    session: Result<Session, String>,
)
    ensures
        params matches Err(e) ==> refusal(action, params, session) == Some(
            "invalid params_json: "@ + e,
        ),
        params is Ok && action == "clipboard_write"@ && params->Ok_0 is None ==> refusal(
            action,
            params,
            session,
        ) == Some("ERR_CLIPBOARD_BAD_PARAMS: missing or invalid `text` (non-empty string)"@),
        params is Ok && (action != "clipboard_write"@ || params->Ok_0 is Some) ==> (session
            matches Err(e) ==> refusal(action, params, session) == Some(e@)),
        refusal(action, params, session) is None ==> params is Ok && session is Ok,
{
}

/// The tools of a session are listed in the order in which they are tried.
pub proof fn lemma_how_tools_are_listed(a: Seq<char>, b: Seq<char>)
    ensures
        names_json(seq![a]) == "["@ + json_quoted(a) + "]"@,
        names_json(seq![a, b]) == "["@ + (json_quoted(a) + ","@ + json_quoted(b)) + "]"@,
        reader_names(Session::Wayland) == seq!["wl-paste"@],
        reader_names(Session::X11) == seq!["xclip"@, "xsel"@],
        writer_names(Session::Wayland) == seq!["wl-copy"@],
        writer_names(Session::X11) == seq!["xclip"@, "xsel"@],
        session_name(Session::Wayland) == "wayland"@,
        session_name(Session::X11) == "x11"@,
{
    let one = seq![a];
    let two = seq![a, b];
    let quoted = Seq::new(two.len(), |i: int| json_quoted(two[i]));
    assert(quoted.drop_last() =~= seq![json_quoted(a)]);
    reveal_with_fuel(joined, 2);
    assert(joined(quoted, ","@) =~= json_quoted(a) + ","@ + json_quoted(b));
    assert(Seq::new(one.len(), |i: int| json_quoted(one[i])) =~= seq![json_quoted(a)]);
}

/// A run says that its tool is missing exactly where it failed with the code for that, and
/// the tools of a session are reported with the session between readers and writers.
pub proof fn lemma_what_is_said_of_tools(r: Result<Vec<u8>, String>, session: Session)
    ensures
        r is Ok ==> !says_missing(r),
        r matches Err(e) ==> (says_missing(r) <==> has_infix(
            e@,
            "ERR_CLIPBOARD_PROVIDER_MISSING"@,
        )),
        providers_text(session) == "{\"readers\":"@ + names_json(reader_names(session))
            + ",\"session\":"@ + json_quoted(session_name(session)) + ",\"writers\":"@ + names_json(
            writer_names(session),
        ) + "}"@,
{
}

} // verus!
