//! Speaker control: the one-byte commands on the control bus, the tool
//! that sends them, and how the audio patchbay frames what crosses its
//! pipe to the audio worker.
use vstd::prelude::*;
use crate::text::{lowercase_of, owned, str_eq, trim, trim_seq};

verus! {

/// Stop playback and drop what is queued.
pub const FLUSH: u8 = 0x01;
/// Hold playback.
pub const PAUSE: u8 = 0x02;
/// Carry on playing.
pub const RESUME: u8 = 0x03;

/// The command byte a word names: "flush" or "stop", "pause", "resume" or "play".
pub open spec fn command_seq(cmd: Seq<char>) -> Option<u8> {
    if cmd == "flush"@ || cmd == "stop"@ {
        Some(FLUSH)
    } else if cmd == "pause"@ {
        Some(PAUSE)
    } else if cmd == "resume"@ || cmd == "play"@ {
        Some(RESUME)
    } else {
        None
    }
}

/// The command byte a word names (see `command_seq`).
pub fn command_to_byte(cmd: &str) -> (r: Option<u8>)
    ensures
        r == command_seq(cmd@),
{
    if str_eq(cmd, "flush") || str_eq(cmd, "stop") {
        Some(FLUSH)
    } else if str_eq(cmd, "pause") {
        Some(PAUSE)
    } else if str_eq(cmd, "resume") || str_eq(cmd, "play") {
        Some(RESUME)
    } else {
        None
    }
}

/// The name a command byte is logged under.
pub fn byte_to_name(b: u8) -> (r: &'static str)
    ensures
        b == FLUSH ==> r@ == "FLUSH"@,
        b == PAUSE ==> r@ == "PAUSE"@,
        b == RESUME ==> r@ == "RESUME"@,
        b != FLUSH && b != PAUSE && b != RESUME ==> r@ == "UNKNOWN"@,
{
    if b == FLUSH {
        "FLUSH"
    } else if b == PAUSE {
        "PAUSE"
    } else if b == RESUME {
        "RESUME"
    } else {
        "UNKNOWN"
    }
}

/// The command the tool's argument names, read in lower case; an unknown
/// word is reported with the valid ones.
pub fn parse_command(arg: &str) -> (r: Result<u8, String>)
    ensures
        match command_seq(lowercase_of(arg@)) {
            Some(b) => r == Ok::<u8, String>(b),
            None => r matches Err(e) && e@ == "Unknown command '"@ + lowercase_of(arg@)
                + "'. Use: flush, pause, resume"@,
        },
{
    let lower = arg.to_lowercase();
    match command_to_byte(lower.as_str()) {
        Some(b) => Ok(b),
        None => {
            let mut e = owned("Unknown command '");
            e.append(lower.as_str());
            e.append("'. Use: flush, pause, resume");
            Err(e)
        },
    }
}

// ---------------------------------------------------------------------------
// The patchbay's pipe.
// ---------------------------------------------------------------------------

/// A control command as sent down the pipe: its byte, negated.
pub fn control_code(cmd: u8) -> (r: i32)
    ensures
        r == -(cmd as int),
{
    -(cmd as i32)
}

/// The name the patchbay logs for a control byte.
pub fn control_name(cmd: u8) -> (r: &'static str)
    ensures
        cmd == 0 ==> r@ == "-"@,
        cmd == FLUSH ==> r@ == "FLUSH"@,
        cmd == PAUSE ==> r@ == "PAUSE"@,
        cmd == RESUME ==> r@ == "RESUME"@,
        cmd > RESUME ==> r@ == "UNKNOWN"@,
{
    if cmd == 0 {
        "-"
    } else {
        byte_to_name(cmd)
    }
}

/// A control message as the patchbay acts on it.
pub struct ControlCmd {
    /// What goes down the pipe.
    pub code: i32,
    /// Whether queued speaker audio is to be dropped.
    pub flush: bool,
}

/// The command a control payload carries: its first byte; none when empty.
pub fn control_for(payload: &[u8]) -> (r: Option<ControlCmd>)
    ensures
        payload@.len() == 0 ==> r is None,
        payload@.len() > 0 ==> (r matches Some(c) && c.code == -(payload@[0] as int) && c.flush == (
        payload@[0] == FLUSH)),
{
    if payload.len() == 0 {
        None
    } else {
        Some(ControlCmd { code: control_code(payload[0]), flush: payload[0] == FLUSH })
    }
}

/// The most samples the patchbay accepts in one microphone frame.
pub const MAX_MIC_SAMPLES: i32 = 4800000;

/// What a microphone frame header announces.
pub enum MicFrame {
    /// No samples follow.
    Skip,
    /// More than the patchbay accepts: the reader stops.
    TooLarge,
    /// This many bytes of samples follow.
    Read { bytes: usize },
}

/// Reads a microphone frame's sample count.
pub fn mic_frame(count: i32) -> (r: MicFrame)
    ensures
        count <= 0 ==> r is Skip,
        count > MAX_MIC_SAMPLES ==> r is TooLarge,
        0 < count <= MAX_MIC_SAMPLES ==> r == (MicFrame::Read { bytes: (count * 4) as usize }),
{
    if count <= 0 {
        MicFrame::Skip
    } else if count > MAX_MIC_SAMPLES {
        MicFrame::TooLarge
    } else {
        MicFrame::Read { bytes: (count as usize) * 4 }
    }
}

/// Whether the worker's first line is its readiness signal, "<ready>".
pub fn is_ready_line(line: &str) -> (r: bool)
    ensures
        r == (trim_seq(line@) == "<ready>"@),
{
    let t = trim(line);
    str_eq(t.as_str(), "<ready>")
}

/// The sample count sent ahead of speaker audio of `len` bytes; none for a
/// payload shorter than one sample, which is skipped.
pub fn speaker_count(len: usize) -> (r: Option<i32>)
    ensures
        len < 4 ==> r is None,
        len >= 4 ==> r == Some((len / 4) as i32),
{
    if len < 4 {
        None
    } else {
        #[verifier::truncate]
        let c: i32 = (len / 4) as i32;
        Some(c)
    }
}

} // verus!
