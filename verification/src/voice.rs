//! The cloned-voice bridge's decisions.
//!
//! Speech synthesis runs in a supervised Python worker that keeps the
//! model warm and talks JSON lines over stdin/stdout. The runtime spawns
//! it and moves the bytes; this module holds where the voice files live,
//! when voice is ready, which requests are refused, and how the worker's
//! lines are read. Voice is gated behind the persona enable flag: it is
//! ready only with the persona enabled and a reference sample, the
//! engine's Python and the worker script all present; otherwise the
//! caller falls back to text.

use vstd::prelude::*;
use crate::paths::{config_file, config_file_of, join_path, joined_path, EnvVars, HomeError};
use crate::text::{chars_of, contains_seq, contains_str, owned, push_str, trim, trim_chars};

verus! {

/// Directory under the configuration directory for the voice files.
pub const VOICE_DIR: &'static str = "voice";

/// The reference sample the worker clones from.
pub const REFERENCE_WAV: &'static str = "reference.wav";

/// Where a rendered line is written.
pub const OUTPUT_WAV: &'static str = "twin_say.wav";

/// The environment variable naming the engine's Python.
pub const ENGINE_PYTHON_VAR: &'static str = "UNHOSTED_TWIN_TTS_PYTHON";

/// The environment variable naming the worker script.
pub const WORKER_SCRIPT_VAR: &'static str = "UNHOSTED_TWIN_TTS_WORKER";

/// The ffmpeg filter that cleans an uploaded sample: trims leading and
/// trailing silence, tames rumble and normalises loudness.
pub const CLEANUP_FILTER: &'static str = "highpass=f=70,\
            silenceremove=start_periods=1:start_silence=0.15:start_threshold=-45dB,\
            areverse,\
            silenceremove=start_periods=1:start_silence=0.15:start_threshold=-45dB,\
            areverse,\
            loudnorm=I=-18:TP=-2:LRA=11";

/// The path of `~/.config/unhosted/voice/<file>`.
pub open spec fn voice_file_of(env: EnvVars, file: Seq<char>) -> Option<Seq<char>> {
    match config_file_of(env, "voice"@) {
        Some(d) => Some(joined_path(d, file)),
        None => None,
    }
}

/// `~/.config/unhosted/voice/<file>`.
pub fn voice_file(env: &EnvVars, file: &str) -> (r: Result<String, HomeError>)
    ensures
        match voice_file_of(*env, file@) {
            Some(p) => r matches Ok(s) && s@ == p,
            None => r == Err::<String, HomeError>(HomeError::NoHome),
        },
{
    let dir = config_file(env, "voice")?;
    Ok(join_path(dir.as_str(), file))
}

/// What the runtime found on this machine.
#[derive(Debug, Clone)]
pub struct VoiceSetup {
    /// The reference sample, when it exists as a file.
    pub reference: Option<String>,
    /// The engine's Python, when the variable is set, non-empty and the
    /// path exists.
    pub engine_python: Option<String>,
    /// The worker script, likewise.
    pub worker_script: Option<String>,
}

/// A configured path from an environment variable: kept when the value
/// is non-empty and the path exists.
pub fn configured_path(value: Option<String>, exists: bool) -> (r: Option<String>)
    ensures
        match value {
            Some(v) => if v@.len() > 0 && exists {
                r == Some(v)
            } else {
                r is None
            },
            None => r is None,
        },
{
    match value {
        Some(v) => {
            if chars_of(v.as_str()).len() > 0 && exists {
                Some(v)
            } else {
                None
            }
        },
        None => None,
    }
}

/// The reference sample's path, if it is set up.
pub fn reference_path(setup: &VoiceSetup) -> (r: Option<&String>)
    ensures
        match setup.reference {
            Some(p) => r == Some(&p),
            None => r is None,
        },
{
    setup.reference.as_ref()
}

/// Whether a reference sample is set up.
pub fn has_reference(setup: &VoiceSetup) -> (r: bool)
    ensures
        r == setup.reference is Some,
{
    setup.reference.is_some()
}

/// Whether voice may speak: the persona is enabled and everything needed
/// to synthesise is present (the sample, the engine and the worker).
pub fn is_ready(setup: &VoiceSetup, persona_enabled: bool) -> (r: bool)
    ensures
        r == (persona_enabled && setup.reference is Some && setup.engine_python is Some
            && setup.worker_script is Some),
{
    persona_enabled && setup.reference.is_some() && setup.engine_python.is_some()
        && setup.worker_script.is_some()
}

/// Why the voice bridge refused or failed.
#[derive(Debug, Clone, PartialEq, Eq)]
pub enum VoiceError {
    EmptyUpload,
    EmptyText,
    NotReady,
    WorkerNotReady(String),
    RenderFailed(String),
}

/// The text of a voice failure.
pub open spec fn voice_error_text(e: VoiceError) -> Seq<char> {
    match e {
        VoiceError::EmptyUpload => "empty upload"@,
        VoiceError::EmptyText => "empty text"@,
        VoiceError::NotReady => "voice not ready (sample/engine/worker missing)"@,
        VoiceError::WorkerNotReady(l) => "worker did not report ready: "@ + l@,
        VoiceError::RenderFailed(e) => "worker render failed: "@ + e@,
    }
}

impl VoiceError {
    /// The message reported to the caller.
    pub fn message(&self) -> (s: String)
        ensures
            s@ == voice_error_text(*self),
    {
        match self {
            VoiceError::EmptyUpload => owned("empty upload"),
            VoiceError::EmptyText => owned("empty text"),
            VoiceError::NotReady => owned("voice not ready (sample/engine/worker missing)"),
            VoiceError::WorkerNotReady(l) => {
                let mut s = owned("worker did not report ready: ");
                push_str(&mut s, l.as_str());
                s
            },
            VoiceError::RenderFailed(e) => {
                let mut s = owned("worker render failed: ");
                push_str(&mut s, e.as_str());
                s
            },
        }
    }
}

/// An uploaded sample is refused when empty.
pub fn check_upload(len: usize) -> (r: Result<(), VoiceError>)
    ensures
        len == 0 ==> r == Err::<(), VoiceError>(VoiceError::EmptyUpload),
        len > 0 ==> r is Ok,
{
    if len == 0 {
        Err(VoiceError::EmptyUpload)
    } else {
        Ok(())
    }
}

/// A synthesis request is refused when its text is blank, then when voice
/// is not ready.
pub fn check_synthesis(text: &str, ready: bool) -> (r: Result<(), VoiceError>)
    ensures
        trim(text@).len() == 0 ==> r == Err::<(), VoiceError>(VoiceError::EmptyText),
        trim(text@).len() > 0 && !ready ==> r == Err::<(), VoiceError>(VoiceError::NotReady),
        trim(text@).len() > 0 && ready ==> r is Ok,
{
    if trim_chars(chars_of(text).as_slice()).len() == 0 {
        return Err(VoiceError::EmptyText);
    }
    if !ready {
        return Err(VoiceError::NotReady);
    }
    Ok(())
}

/// The worker must be (re)spawned when there is none or it has exited
/// (or its state cannot be read).
pub fn needs_spawn(present: bool, exited_or_unknown: bool) -> (r: bool)
    ensures
        r == (!present || exited_or_unknown),
{
    !present || exited_or_unknown
}

/// The worker's first line must announce readiness (`"ready"`); else the
/// worker is refused with the trimmed line.
pub fn check_ready_line(line: &str) -> (r: Result<(), VoiceError>)
    ensures
        contains_seq(line@, "\"ready\""@) ==> r is Ok,
        !contains_seq(line@, "\"ready\""@) ==> (r matches Err(VoiceError::WorkerNotReady(l)) && l@
            == trim(line@)),
{
    let v = chars_of(line);
    if contains_str(v.as_slice(), "\"ready\"") {
        Ok(())
    } else {
        let t = trim_chars(v.as_slice());
        Err(VoiceError::WorkerNotReady(crate::text::string_of_range(t.as_slice(), 0, t.len())))
    }
}

/// Reads the worker's reply: rendered when it says `"ok": true` and the
/// output file exists; else a failure with its `"error"` text, or
/// `unknown`.
pub fn render_verdict(ok: Option<bool>, out_exists: bool, error: Option<&str>) -> (r: Result<
    (),
    VoiceError,
>)
    ensures
        ok == Some(true) && out_exists ==> r is Ok,
        !(ok == Some(true) && out_exists) ==> (r matches Err(VoiceError::RenderFailed(e)) && e@
            == match error {
            Some(x) => x@,
            None => "unknown"@,
        }),
{
    if ok == Some(true) && out_exists {
        Ok(())
    } else {
        Err(
            VoiceError::RenderFailed(
                match error {
                    Some(x) => owned(x),
                    None => owned("unknown"),
                },
            ),
        )
    }
}

} // verus!
