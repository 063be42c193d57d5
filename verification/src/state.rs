//! A meeting and where it is in its life.
//!
//! **Stop is a state transition, not a signal.** The recorder polls the state file and
//! finalizes its own WAV when it sees `Stopping`: a process that is terminated gets no
//! chance to run cleanup, and polling a file behaves the same on every platform.
//!
//! The file is also the crash-recovery record. A meeting that was recorded but never
//! transcribed stays on disk as `Recorded`, so it can be picked up rather than orphaned.
use vstd::prelude::*;
use crate::config::{Config, Provider};
use crate::moment::{
    STAMP_FORM, a_stamp_is_digits_and_signs, elapsed_from, elapsed_since, is_moment, is_utc_moment,
    now_stamp, now_text, rfc3339_micros,
};
use crate::order::text_le;
use crate::paths::{HomePath, meeting_dir, meeting_place};
use crate::sarvam_batch::Mode;
use crate::text::{copy_opt, is_digit, is_lower, opt_text};
use crate::time::Time;

verus! {

/// Where a meeting is in its life.
#[derive(Debug, Clone, Copy, PartialEq, Eq, Structural)]
pub enum Phase {
    /// The worker has been spawned but has not opened the devices yet.
    Starting,
    Recording,
    /// Stop requested. The recorder is finalizing the file.
    Stopping,
    /// Audio is on disk and complete. Safe to transcribe, and safe to resume from.
    Recorded,
    /// Transcribing the sample for the quality gate.
    Sampling,
    /// Waiting for the user to pick a mode, or reject.
    AwaitingApproval,
    Transcribing,
    Summarising,
    Done,
    Failed,
}

impl Phase {
    pub open spec fn name(self) -> Seq<char> {
        match self {
            Phase::Starting => "starting"@,
            Phase::Recording => "recording"@,
            Phase::Stopping => "stopping"@,
            Phase::Recorded => "recorded"@,
            Phase::Sampling => "sampling"@,
            Phase::AwaitingApproval => "awaiting-approval"@,
            Phase::Transcribing => "transcribing"@,
            Phase::Summarising => "summarising"@,
            Phase::Done => "done"@,
            Phase::Failed => "failed"@,
        }
    }

    pub open spec fn finished(self) -> bool {
        self == Phase::Done || self == Phase::Failed
    }

    pub open spec fn capturing(self) -> bool {
        self == Phase::Starting || self == Phase::Recording || self == Phase::Stopping
    }

    pub open spec fn processing(self) -> bool {
        self == Phase::Sampling || self == Phase::Transcribing || self == Phase::Summarising
    }

    pub fn as_str(&self) -> (r: &'static str)
        ensures
            r@ == self.name(),
    {
        match self {
            Phase::Starting => "starting",
            Phase::Recording => "recording",
            Phase::Stopping => "stopping",
            Phase::Recorded => "recorded",
            Phase::Sampling => "sampling",
            Phase::AwaitingApproval => "awaiting-approval",
            Phase::Transcribing => "transcribing",
            Phase::Summarising => "summarising",
            Phase::Done => "done",
            Phase::Failed => "failed",
        }
    }

    /// Nothing further will happen on its own.
    pub fn is_finished(&self) -> (r: bool)
        ensures
            r == self.finished(),
    {
        matches!(self, Phase::Done | Phase::Failed)
    }

    /// The microphone is open, so a second meeting must not start.
    pub fn is_capturing(&self) -> (r: bool)
        ensures
            r == self.capturing(),
    {
        matches!(self, Phase::Starting | Phase::Recording | Phase::Stopping)
    }

    /// Work is in flight that a `stop` should not interrupt.
    pub fn is_processing(&self) -> (r: bool)
        ensures
            r == self.processing(),
    {
        matches!(self, Phase::Sampling | Phase::Transcribing | Phase::Summarising)
    }
}

/// A meeting captures, is processed, or is finished, and never two of these at once. In
/// the two phases that are none of them it waits: for a run, or for an approval.
pub proof fn a_meeting_does_one_thing_at_a_time(phase: Phase)
    ensures
        !(phase.capturing() && phase.processing()),
        !(phase.capturing() && phase.finished()),
        !(phase.processing() && phase.finished()),
        phase.capturing() || phase.processing() || phase.finished() || phase == Phase::Recorded
            || phase == Phase::AwaitingApproval,
{
}

/// One transcription of the sample, for the quality gate to display.
#[derive(Debug, Clone)]
pub struct SampleCandidate {
    pub mode: Mode,
    pub text: String,
    /// Measured, not estimated: how long the job actually took.
    pub elapsed: Time,
    pub segment_count: usize,
    pub speaker_labels: usize,
    pub overlapping_segments: usize,
    /// Provider language *detection*. Never an accuracy figure.
    pub detected_language: Option<String>,
    /// The last timestamp, against the sample's own duration.
    pub covered: Option<Time>,
    pub sample_length: Time,
    pub error: Option<String>,
}

/// The quality gate's findings.
#[derive(Debug, Clone)]
pub struct SampleReport {
    pub window_start: Time,
    pub window_length: Time,
    /// The RMS of the chosen window, as the number that writes it, so a near-silent sample
    /// is visible immediately.
    pub window_rms: String,
    pub candidates: Vec<SampleCandidate>,
}

/// How loud a source was. The levels are held as the numbers that write them: they are
/// carried, never computed with.
#[derive(Debug, Clone)]
pub struct SourceLevel {
    pub source: String,
    pub peak: String,
    pub rms: String,
    pub silent: bool,
}

#[derive(Debug, Clone)]
pub struct ActiveMeeting {
    pub id: String,
    pub phase: Phase,
    /// RFC3339, so the file is readable and comparable without parsing tricks.
    pub started_at: String,
    pub audio_path: Option<String>,
    pub recorder_pid: Option<u32>,
    pub duration: Option<Time>,
    pub sample: Option<SampleReport>,
    /// Mode approved for the full run.
    pub approved_mode: Option<Mode>,
    pub note: Option<String>,
    pub error: Option<String>,
    /// Per-source levels once recording has finished, so a source that stayed silent for
    /// the whole meeting is on the record.
    pub source_levels: Vec<SourceLevel>,
    /// A WAV the sample can be cut from, where the audio itself is no WAV.
    pub sample_source: Option<String>,
    /// Why no sample can be cut.
    pub gate_blocked: Option<String>,
    /// Whether the audio was imported rather than recorded.
    pub imported: bool,
}

impl ActiveMeeting {
    /// A meeting that is about to start.
    pub open spec fn is_new(self, id: Seq<char>) -> bool {
        &&& self.id@ == id
        &&& self.phase == Phase::Starting
        &&& self.audio_path is None
        &&& self.recorder_pid is None
        &&& self.duration is None
        &&& self.sample is None
        &&& self.approved_mode is None
        &&& self.note is None
        &&& self.error is None
        &&& self.source_levels@.len() == 0
        &&& self.sample_source is None
        &&& self.gate_blocked is None
        &&& !self.imported
    }

    /// A meeting that starts at a written moment.
    pub fn started(id: &str, started_at: String) -> (r: Self)
        ensures
            r.is_new(id@),
            r.started_at == started_at,
    {
        ActiveMeeting {
            id: id.to_owned(),
            phase: Phase::Starting,
            started_at,
            audio_path: None,
            recorder_pid: None,
            duration: None,
            sample: None,
            approved_mode: None,
            note: None,
            error: None,
            source_levels: Vec::new(),
            sample_source: None,
            gate_blocked: None,
            imported: false,
        }
    }

    /// A meeting that starts now.
    pub fn new(id: &str) -> (r: Self)
        ensures
            r.is_new(id@),
            is_utc_moment(r.started_at@),
    {
        ActiveMeeting::started(id, now_text())
    }

    pub fn directory(&self) -> (r: HomePath)
        ensures
            r@ == meeting_place(self.id@),
    {
        meeting_dir(self.id.as_str())
    }

    /// How long ago the meeting started. A start that cannot be read counts as now.
    pub fn elapsed(&self) -> (r: Time)
        ensures
            r >= 0,
            rfc3339_micros(self.started_at@) is None ==> r == 0,
            exists|now: i64|
                r == #[trigger] elapsed_from(rfc3339_micros(self.started_at@), now),
    {
        elapsed_since(self.started_at.as_str())
    }

    /// The file a sample can be cut from: the WAV made for it, or else the audio itself.
    pub open spec fn sample_file(self) -> Option<Seq<char>> {
        match self.sample_source {
            Some(path) => Some(path@),
            None => opt_text(self.audio_path),
        }
    }

    pub fn sampleable(&self) -> (r: Option<String>)
        ensures
            opt_text(r) == self.sample_file(),
    {
        match &self.sample_source {
            Some(path) => Some(path.clone()),
            None => copy_opt(&self.audio_path),
        }
    }
}

/// `meeting-` with the date and the time of day.
pub open spec fn meeting_id(stamp: Seq<char>) -> Seq<char> {
    "meeting-"@ + stamp
}

/// The id of a meeting that starts at a moment written `YYYYMMDD-hhmmss`.
pub fn meeting_id_at(stamp: &str) -> (r: String)
    ensures
        r@ == meeting_id(stamp@),
{
    "meeting-".to_owned().concat(stamp)
}

/// A fresh meeting id: sortable, readable, and safe as a directory name.
pub fn new_meeting_id() -> (r: String)
    ensures
        exists|stamp: Seq<char>|
            r@ == #[trigger] meeting_id(stamp) && is_moment(stamp, STAMP_FORM@),
        is_safe_name(r@),
{
    let stamp = now_stamp();
    let r = meeting_id_at(stamp.as_str());
    proof {
        reveal_strlit("meeting-");
        a_stamp_is_digits_and_signs(stamp@, STAMP_FORM@);
        assert(r@ == meeting_id(stamp@));
        assert forall|i: int| 0 <= i < r@.len() implies is_name_char(#[trigger] r@[i]) by {
            if i >= "meeting-"@.len() {
                assert(r@[i] == stamp@[i - "meeting-"@.len()]);
            }
        }
    }
    r
}

/// Letters, digits and signs: nothing that a path gives a meaning to.
pub open spec fn is_name_char(c: char) -> bool {
    is_digit(c) || is_lower(c) || c == '-' || c == '+'
}

/// Whether a name is safe as the name of a directory.
pub open spec fn is_safe_name(name: Seq<char>) -> bool {
    name.len() > 0 && forall|i: int| 0 <= i < name.len() ==> is_name_char(#[trigger] name[i])
}

/// Of two meetings, the one with the earlier stamp has the id that sorts first.
pub proof fn meeting_ids_sort_as_their_stamps(a: Seq<char>, b: Seq<char>)
    ensures
        text_le(meeting_id(a), meeting_id(b)) == text_le(a, b),
{
    common_prefix_keeps_order("meeting-"@, a, b);
}

proof fn common_prefix_keeps_order(p: Seq<char>, a: Seq<char>, b: Seq<char>)
    ensures
        text_le(p + a, p + b) == text_le(a, b),
    decreases p.len(),
{
    if p.len() == 0 {
        assert(p + a =~= a);
        assert(p + b =~= b);
    } else {
        common_prefix_keeps_order(p.drop_first(), a, b);
        assert((p + a).drop_first() =~= p.drop_first() + a);
        assert((p + b).drop_first() =~= p.drop_first() + b);
        assert((p + a)[0] == p[0] && (p + b)[0] == p[0]);
    }
}

/// Whether a meeting can be transcribed, asked before one is recorded: a missing key found
/// *after* an hour-long meeting is found at the worst possible time.
pub fn check_ready(config: &Config) -> (r: Result<(), String>)
    ensures
        r is Ok <==> config.has_key(Provider::Sarvam),
        r is Err ==> r->Err_0@
            == "Meeting transcription needs a Sarvam API key (Batch STT with speaker labels). Run: nbmeet setup"@,
{
    match config.usable_key(Provider::Sarvam) {
        Some(_) => Ok(()),
        None => Err(
            "Meeting transcription needs a Sarvam API key (Batch STT with speaker labels). Run: nbmeet setup".to_owned(),
        ),
    }
}

pub fn has_summary_key(config: &Config) -> (r: bool)
    ensures
        r == config.has_key(Provider::Groq),
{
    config.usable_key(Provider::Groq).is_some()
}

/// A sample is cut from what was made for it, and else from the recording itself.
pub proof fn a_sample_is_cut_from_what_was_made_for_it(meeting: ActiveMeeting)
    ensures
        meeting.sample_source is Some ==> meeting.sample_file() == Some(meeting.sample_source->0@),
        meeting.sample_source is None && meeting.audio_path is Some ==> meeting.sample_file()
            == Some(meeting.audio_path->0@),
        meeting.sample_source is None && meeting.audio_path is None ==> meeting.sample_file()
            is None,
{
}

/// A phase is told by its name: no two share one.
pub proof fn phases_are_told_apart(a: Phase, b: Phase)
    requires
        a.name() == b.name(),
    ensures
        a == b,
{
    reveal_strlit("starting");
    reveal_strlit("recording");
    reveal_strlit("stopping");
    reveal_strlit("recorded");
    reveal_strlit("sampling");
    reveal_strlit("awaiting-approval");
    reveal_strlit("transcribing");
    reveal_strlit("summarising");
    reveal_strlit("done");
    reveal_strlit("failed");
    assert("starting"@.len() == 8 && "recording"@.len() == 9 && "stopping"@.len() == 8
        && "recorded"@.len() == 8 && "sampling"@.len() == 8 && "awaiting-approval"@.len() == 17
        && "transcribing"@.len() == 12 && "summarising"@.len() == 11 && "done"@.len() == 4
        && "failed"@.len() == 6);
    assert("starting"@[2] == 'a' && "stopping"@[2] == 'o' && "recorded"@[2] == 'c' && "sampling"@[2]
        == 'm');
}

} // verus!
