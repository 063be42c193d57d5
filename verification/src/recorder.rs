//! The recorder of a meeting: when it starts, when it stops, and what it leaves behind.
//!
//! The worker records until the state file says `Stopping`, finalizes the WAV, and marks the
//! meeting `Recorded`. Transcription happens afterwards in another process, so a long upload
//! never depends on this worker surviving.
use vstd::prelude::*;
use crate::audio::Levels;
use crate::capture::{CaptureOptions, SourceKind};
use crate::config::{Config, on_unless_off};
use crate::number::{decimal, to_decimal};
use crate::paths::{HomePath, meeting_dir, meeting_place};
use crate::pipeline::active_view;
use crate::state::{ActiveMeeting, Phase, SourceLevel};
use crate::text::{copy_opt, opt_text, same};
use crate::time::Time;

verus! {

/// How often the worker checks whether a stop has been requested, in microseconds.
pub const POLL: u64 = 250_000;

/// A meeting this long is almost certainly one someone forgot to stop, in microseconds.
pub const MAX_DURATION: u64 = 21_600_000_000;

/// Where the audio of a meeting is recorded: beside its deliverables.
pub fn audio_path(id: &str) -> (r: HomePath)
    ensures
        r@ == meeting_place(id@).push("audio.wav"@),
{
    meeting_dir(id).join("audio.wav")
}

/// Why a worker must not start. A stale worker from a previous meeting must not overwrite
/// the current one's audio, so the id has to match exactly.
pub open spec fn start_refusal(active: Option<(Seq<char>, Phase)>, id: Seq<char>) -> Option<
    Seq<char>,
> {
    match active {
        None => Some("No active meeting to record."@),
        Some((current, phase)) => if current != id {
            Some(
                "Meeting "@ + id + " is no longer the active meeting ("@ + current + " is)."@,
            )
        } else if phase != Phase::Starting {
            Some("Meeting "@ + id + " is "@ + phase.name() + " , not starting."@)
        } else {
            None
        },
    }
}

pub fn check_worker(active: Option<&ActiveMeeting>, id: &str) -> (r: Result<(), String>)
    ensures
        match r {
            Ok(_) => start_refusal(active_view(active), id@) is None,
            Err(e) => start_refusal(active_view(active), id@) == Some(e@),
        },
{
    match active {
        None => Err("No active meeting to record.".to_owned()),
        Some(meeting) => {
            if !same(meeting.id.as_str(), id) {
                return Err(
                    "Meeting ".to_owned().concat(id).concat(
                        " is no longer the active meeting (",
                    ).concat(meeting.id.as_str()).concat(" is)."),
                );
            }
            if meeting.phase != Phase::Starting {
                return Err(
                    "Meeting ".to_owned().concat(id).concat(" is ").concat(
                        meeting.phase.as_str(),
                    ).concat(" , not starting."),
                );
            }
            Ok(())
        },
    }
}

/// What a meeting records, from the settings.
pub fn capture_options(config: &Config) -> (r: CaptureOptions)
    ensures
        r.mic == on_unless_off(config.meeting_mic),
        r.system == on_unless_off(config.meeting_system),
        opt_text(r.device) == opt_text(config.audio_device),
        r.keep_tracks == (config.meeting_keep_tracks == Some(true)),
{
    let (mic, system) = config.meeting_capture();
    CaptureOptions {
        mic,
        system,
        device: copy_opt(&config.audio_device),
        keep_tracks: config.meeting_keep_tracks == Some(true),
    }
}

// --------------------------------------------------------------------- transitions

/// A meeting whose recorder failed.
pub open spec fn as_failed(meeting: ActiveMeeting, error: String) -> ActiveMeeting {
    ActiveMeeting { phase: Phase::Failed, error: Some(error), ..meeting }
}

/// A meeting that is being recorded.
pub open spec fn as_recording(meeting: ActiveMeeting, path: String, pid: u32) -> ActiveMeeting {
    ActiveMeeting {
        phase: Phase::Recording,
        audio_path: Some(path),
        recorder_pid: Some(pid),
        ..meeting
    }
}

/// A meeting whose recording is complete.
pub open spec fn as_recorded(
    meeting: ActiveMeeting,
    path: String,
    duration: Time,
    levels: Vec<SourceLevel>,
) -> ActiveMeeting {
    ActiveMeeting {
        phase: Phase::Recorded,
        audio_path: Some(path),
        duration: Some(duration),
        source_levels: levels,
        recorder_pid: None,
        ..meeting
    }
}

/// Records why capture could not start, so that it can be explained instead of the meeting
/// just never starting.
pub fn mark_failed(meeting: &mut ActiveMeeting, error: String)
    ensures
        *final(meeting) == (ActiveMeeting {
            phase: Phase::Failed,
            error: Some(error),
            ..*old(meeting)
        }),
        *final(meeting) == as_failed(*old(meeting), error),
{
    meeting.phase = Phase::Failed;
    meeting.error = Some(error);
}

pub fn mark_recording(meeting: &mut ActiveMeeting, path: String, pid: u32)
    ensures
        *final(meeting) == (ActiveMeeting {
            phase: Phase::Recording,
            audio_path: Some(path),
            recorder_pid: Some(pid),
            ..*old(meeting)
        }),
        *final(meeting) == as_recording(*old(meeting), path, pid),
{
    meeting.phase = Phase::Recording;
    meeting.audio_path = Some(path);
    meeting.recorder_pid = Some(pid);
}

/// Audio is on disk and complete.
pub fn mark_recorded(
    meeting: &mut ActiveMeeting,
    path: String,
    duration: Time,
    levels: Vec<SourceLevel>,
)
    ensures
        *final(meeting) == (ActiveMeeting {
            phase: Phase::Recorded,
            audio_path: Some(path),
            duration: Some(duration),
            source_levels: levels,
            recorder_pid: None,
            ..*old(meeting)
        }),
        *final(meeting) == as_recorded(*old(meeting), path, duration, levels),
{
    meeting.phase = Phase::Recorded;
    meeting.audio_path = Some(path);
    meeting.duration = Some(duration);
    meeting.source_levels = levels;
    meeting.recorder_pid = None;
}

/// What is kept of the levels of a source, with the numbers that write them.
pub fn source_level(kind: SourceKind, levels: &Levels, peak: &str, rms: &str) -> (r: SourceLevel)
    ensures
        r.source@ == kind.name(),
        r.peak@ == peak@,
        r.rms@ == rms@,
        r.silent == levels.silent(),
{
    SourceLevel {
        source: kind.label().to_owned(),
        peak: peak.to_owned(),
        rms: rms.to_owned(),
        silent: levels.is_silent(),
    }
}

/// What is logged of a source that stayed silent: the worst failure this tool has, since the
/// recording looks fine and the far side is simply absent from the transcript.
pub fn silence_log(id: &str, level: &SourceLevel) -> (r: Option<String>)
    ensures
        opt_text(r) == (if level.silent {
            Some(
                "Meeting "@ + id@ + ": "@ + level.source@ + " was silent for the whole recording"@,
            )
        } else {
            None
        }),
{
    if level.silent {
        Some(
            "Meeting ".to_owned().concat(id).concat(": ").concat(level.source.as_str()).concat(
                " was silent for the whole recording",
            ),
        )
    } else {
        None
    }
}

// ------------------------------------------------------------------------ stopping

/// Why a recorder that has recorded for `elapsed` stops, given the state it finds. `None`
/// while it goes on.
pub open spec fn stop_reason(active: Option<(Seq<char>, Phase)>, id: Seq<char>, elapsed: u64) -> Option<
    Seq<char>,
> {
    match active {
        None => Some("active meeting file disappeared"@),
        Some((current, phase)) => if current != id {
            Some("another meeting became active"@)
        } else if phase == Phase::Stopping {
            Some("stop requested"@)
        } else if !phase.capturing() {
            Some("meeting left the recording phase"@)
        } else if elapsed > MAX_DURATION {
            Some("reached the 6 hour limit"@)
        } else {
            None
        },
    }
}

pub fn why_stop(active: Option<&ActiveMeeting>, id: &str, elapsed: u64) -> (r: Option<&'static str>)
    ensures
        match r {
            Some(reason) => stop_reason(active_view(active), id@, elapsed) == Some(reason@),
            None => stop_reason(active_view(active), id@, elapsed) is None,
        },
{
    match active {
        None => Some("active meeting file disappeared"),
        Some(meeting) => if !same(meeting.id.as_str(), id) {
            Some("another meeting became active")
        } else if meeting.phase == Phase::Stopping {
            Some("stop requested")
        } else if !meeting.phase.is_capturing() {
            Some("meeting left the recording phase")
        } else if elapsed > MAX_DURATION {
            Some("reached the 6 hour limit")
        } else {
            None
        },
    }
}

/// The microphone stays open only for the active meeting, while it captures and no stop is
/// asked for, and never beyond the limit.
pub proof fn the_microphone_is_open_only_for_its_meeting(
    active: Option<(Seq<char>, Phase)>,
    id: Seq<char>,
    elapsed: u64,
)
    requires
        stop_reason(active, id, elapsed) is None,
    ensures
        active == Some((id, Phase::Starting)) || active == Some((id, Phase::Recording)),
        elapsed <= MAX_DURATION,
{
}

/// A worker that may start records for the active meeting, and goes on until its state
/// changes.
pub proof fn a_started_worker_goes_on(active: Option<(Seq<char>, Phase)>, id: Seq<char>)
    requires
        start_refusal(active, id) is None,
    ensures
        stop_reason(active, id, 0) is None,
{
}

/// What asking for a stop comes to.
#[derive(Debug, Clone, Copy, PartialEq, Eq, Structural)]
pub enum StopRequest {
    /// The recording is already complete.
    Recorded,
    /// The recorder has to be told, and waited for.
    Ask,
}

pub open spec fn nothing_to_stop(active: Option<(Seq<char>, Phase)>) -> Option<Seq<char>> {
    match active {
        None => Some("No active meeting. Start one with: nbmeet start"@),
        Some((id, phase)) => if phase != Phase::Recorded && !phase.capturing() {
            Some(
                "Meeting "@ + id + " is "@ + phase.name() + ", so there is nothing to stop."@,
            )
        } else {
            None
        },
    }
}

pub fn request_stop(active: Option<&ActiveMeeting>) -> (r: Result<StopRequest, String>)
    ensures
        match r {
            Ok(request) => nothing_to_stop(active_view(active)) is None && (request
                == StopRequest::Recorded <==> active->0.phase == Phase::Recorded),
            Err(e) => nothing_to_stop(active_view(active)) == Some(e@),
        },
{
    match active {
        None => Err("No active meeting. Start one with: nbmeet start".to_owned()),
        Some(meeting) => {
            if meeting.phase == Phase::Recorded {
                return Ok(StopRequest::Recorded);
            }
            if !meeting.phase.is_capturing() {
                return Err(
                    "Meeting ".to_owned().concat(meeting.id.as_str()).concat(" is ").concat(
                        meeting.phase.as_str(),
                    ).concat(", so there is nothing to stop."),
                );
            }
            Ok(StopRequest::Ask)
        },
    }
}

/// What a look at the state tells of a stop that was asked for.
#[derive(Debug)]
pub enum StopProgress {
    Waiting,
    /// The file is final, and safe to read.
    Recorded,
    Failed(String),
}

/// The wait matters: the WAV header is only correct after the recorder finalizes it, so
/// transcribing before that would read a truncated file.
pub fn stop_progress(active: Option<&ActiveMeeting>) -> (r: StopProgress)
    ensures
        match r {
            StopProgress::Recorded => active is Some && active->0.phase == Phase::Recorded,
            StopProgress::Failed(e) => active is Some && active->0.phase == Phase::Failed && e@
                == (match active->0.error {
                Some(error) => error@,
                None => "The recorder failed."@,
            }),
            StopProgress::Waiting => active is None || (active->0.phase != Phase::Recorded
                && active->0.phase != Phase::Failed),
        },
{
    match active {
        Some(meeting) => {
            if meeting.phase == Phase::Recorded {
                return StopProgress::Recorded;
            }
            if meeting.phase == Phase::Failed {
                return StopProgress::Failed(
                    match &meeting.error {
                        Some(error) => error.clone(),
                        None => "The recorder failed.".to_owned(),
                    },
                );
            }
            StopProgress::Waiting
        },
        None => StopProgress::Waiting,
    }
}

/// What is said when the recorder did not finish in time. Only it can finalize the header.
pub fn stop_timeout(seconds: u64, audio: &str) -> (r: String)
    ensures
        r@ == "The recorder did not finish within "@ + decimal(seconds as nat)
            + "s. The audio is at "@ + audio@
            + " and is readable up to its last checkpoint. Check: nbmeet status"@,
{
    "The recorder did not finish within ".to_owned().concat(to_decimal(seconds).as_str()).concat(
        "s. The audio is at ",
    ).concat(audio).concat(
        " and is readable up to its last checkpoint. Check: nbmeet status",
    )
}

/// A worker starts exactly for the meeting that was just started, and records until its meeting
/// is another, is being stopped, has ended, or has lasted six hours.
pub proof fn a_worker_serves_one_meeting(
    active: Option<(Seq<char>, Phase)>,
    id: Seq<char>,
    elapsed: u64,
)
    ensures
        start_refusal(active, id) is None <==> active == Some((id, Phase::Starting)),
        stop_reason(active, id, elapsed) is None <==> (active == Some((id, Phase::Starting))
            || active == Some((id, Phase::Recording))) && elapsed <= 21_600_000_000,
        active == Some((id, Phase::Stopping)) ==> stop_reason(active, id, elapsed) == Some(
            "stop requested"@,
        ),
{
}

/// There is something to stop exactly while a meeting is being captured, or was recorded.
pub proof fn a_stop_is_for_a_recording(active: Option<(Seq<char>, Phase)>)
    ensures
        nothing_to_stop(active) is None <==> (active matches Some((id, phase)) && (phase
            == Phase::Starting || phase == Phase::Recording || phase == Phase::Stopping || phase
            == Phase::Recorded)),
{
}

/// A recording leaves its audio, its length and its levels behind, and no recorder. The meeting
/// stays the one it was, and its start too; what fails keeps all that was there.
pub proof fn a_recording_leaves_its_audio_behind(
    meeting: ActiveMeeting,
    path: String,
    pid: u32,
    duration: Time,
    levels: Vec<SourceLevel>,
    error: String,
)
    ensures
        ({
            let recording = as_recording(meeting, path, pid);
            let recorded = as_recorded(recording, path, duration, levels);
            let failed = as_failed(recording, error);
            &&& recording.phase == Phase::Recording && recording.recorder_pid == Some(pid)
            &&& recorded.phase == Phase::Recorded && recorded.recorder_pid is None
            &&& recorded.audio_path == Some(path) && recorded.duration == Some(duration)
            &&& recorded.source_levels == levels
            &&& recorded.id == meeting.id && recorded.started_at == meeting.started_at
            &&& recorded.error == meeting.error && recorded.sample == meeting.sample
            &&& failed.phase == Phase::Failed && failed.error == Some(error)
            &&& failed.audio_path == Some(path) && failed.id == meeting.id
            &&& nothing_to_stop(Some((meeting.id@, recording.phase))) is None
            &&& stop_reason(Some((meeting.id@, recording.phase)), meeting.id@, 0) is None
            &&& stop_reason(Some((meeting.id@, recorded.phase)), meeting.id@, 0) is Some
        }),
{
}

} // verus!
