//! The meeting commands: what may be done in which phase, what it changes, and what is said.
use vstd::prelude::*;
use crate::capture::{SystemAudioStatus, SystemStatusView};
use crate::config::{Config, on_unless_off, setting_or};
use crate::deliverables::opt_analysis;
use crate::number::{decimal, to_decimal};
use crate::pipeline::{active_view, in_flight};
use crate::report::{Line, LineView, Report, line_if};
use crate::sarvam_batch::Mode;
use crate::state::{ActiveMeeting, Phase, SampleCandidate, SampleReport, SourceLevel};
use crate::summary::{ActionItem, ActionItemView, Analysis, AnalysisView};
use crate::text::{
    ascii_lower, has, lines, lines_of, opt_text, stands_inside, texts, texts_of_push, trimmed,
};
use crate::time::{SECOND, Time, clock, clock_text, parse_seconds, seconds_written};

verus! {

broadcast use texts_of_push;

/// How long `start` waits for the recorder to confirm that it records, in seconds.
pub const START_TIMEOUT: u64 = 8;

/// How long `stop` waits for the recorder to finalize its WAV, in seconds.
pub const STOP_TIMEOUT: u64 = 30;

/// A recording shorter than this is no meeting.
pub const SHORTEST_MEETING: Time = 5_000_000_000_000_000_000;

// -------------------------------------------------------------------------- starting

/// Why a meeting cannot start beside another.
pub open spec fn busy_reason(active: Option<(Seq<char>, Phase)>) -> Option<Seq<char>> {
    match active {
        Some((id, phase)) => if phase.capturing() {
            Some(
                "Meeting "@ + id + " is already "@ + phase.name()
                    + ". Stop it first: nbmeet stop"@,
            )
        } else if phase == Phase::AwaitingApproval {
            Some(
                "Meeting "@ + id
                    + " is waiting for sample approval. Run: nbmeet approve — or nbmeet reject"@,
            )
        } else if phase == Phase::Recorded {
            Some(
                "Meeting "@ + id
                    + " was recorded but never transcribed. Finish it first: nbmeet process"@,
            )
        } else {
            None
        },
        None => None,
    }
}

/// Whether a meeting may start: not while another captures, waits for approval, or was
/// recorded and never transcribed.
pub fn check_start(active: Option<&ActiveMeeting>) -> (r: Result<(), String>)
    ensures
        match r {
            Ok(_) => busy_reason(active_view(active)) is None,
            Err(e) => busy_reason(active_view(active)) == Some(e@),
        },
{
    match active {
        Some(m) => {
            if m.phase.is_capturing() {
                return Err(
                    "Meeting ".to_owned().concat(m.id.as_str()).concat(" is already ").concat(
                        m.phase.as_str(),
                    ).concat(". Stop it first: nbmeet stop"),
                );
            }
            if m.phase == Phase::AwaitingApproval {
                return Err(
                    "Meeting ".to_owned().concat(m.id.as_str()).concat(
                        " is waiting for sample approval. Run: nbmeet approve — or nbmeet reject",
                    ),
                );
            }
            if m.phase == Phase::Recorded {
                return Err(
                    "Meeting ".to_owned().concat(m.id.as_str()).concat(
                        " was recorded but never transcribed. Finish it first: nbmeet process",
                    ),
                );
            }
            Ok(())
        },
        None => Ok(()),
    }
}

/// Starting a meeting never loses another: one that holds audio nobody has transcribed is
/// still there.
pub proof fn starting_loses_no_recording(id: Seq<char>, phase: Phase)
    requires
        busy_reason(Some((id, phase))) is None,
    ensures
        phase.processing() || phase.finished(),
{
}

/// What is known of the consent to upload audio.
#[derive(Debug)]
pub enum Consent {
    Given,
    /// Given on the command line, and to be remembered.
    GivenNow,
    /// To be asked for.
    Ask,
    /// It cannot be asked for here.
    Refused(String),
}

/// Whether audio may be uploaded. It is asked once, and the answer is remembered.
pub fn confirm_upload(config: &Config, assume_yes: bool, is_terminal: bool) -> (r: Consent)
    ensures
        match r {
            Consent::Given => config.meeting_consent == Some(true),
            Consent::GivenNow => config.meeting_consent != Some(true) && assume_yes,
            Consent::Ask => config.meeting_consent != Some(true) && !assume_yes && is_terminal,
            Consent::Refused(e) => config.meeting_consent != Some(true) && !assume_yes
                && !is_terminal && e@
                == "Run `nbmeet start` in a terminal once to confirm this, or pass --yes."@,
        },
{
    if config.meeting_consent == Some(true) {
        Consent::Given
    } else if assume_yes {
        Consent::GivenNow
    } else if is_terminal {
        Consent::Ask
    } else {
        Consent::Refused(
            "Run `nbmeet start` in a terminal once to confirm this, or pass --yes.".to_owned(),
        )
    }
}

pub fn remember_consent(config: &mut Config)
    ensures
        *final(config) == (Config { meeting_consent: Some(true), ..*old(config) }),
{
    config.meeting_consent = Some(true);
}

pub open spec fn gap_lines(config: Config, status: SystemStatusView) -> Seq<LineView> {
    if !on_unless_off(config.meeting_system) {
        seq![
            LineView::Warn(
                "System audio is off, so the other participants will not be recorded."@,
            ),
        ]
    } else {
        (match status {
            SystemStatusView::Ready => Seq::<LineView>::empty(),
            SystemStatusView::PermissionRequired(hint) => seq![
                LineView::Warn(
                    "System audio permission is missing, so only your side will be recorded."@,
                ),
                LineView::Hint(hint),
            ],
            SystemStatusView::Unavailable(reason) => seq![
                LineView::Warn("System audio is unavailable: "@ + reason),
                LineView::Hint("Only your microphone will be recorded."@),
            ],
        }) + line_if(
            !on_unless_off(config.meeting_mic),
            LineView::Warn(
                "The microphone is off, so your own voice will not be recorded."@,
            ),
        )
    }
}

/// Says up front when a source will be missing, rather than after the meeting.
pub fn warn_about_capture_gaps(config: &Config, status: &SystemAudioStatus) -> (r: Report)
    ensures
        r@ == gap_lines(*config, status@),
{
    let (mic, system) = config.meeting_capture();
    let mut r = Report::new();
    if !system {
        r.warn("System audio is off, so the other participants will not be recorded.");
        assert(r@ =~= gap_lines(*config, status@));
        return r;
    }
    match status {
        SystemAudioStatus::Ready => {},
        SystemAudioStatus::PermissionRequired { hint } => {
            r.warn("System audio permission is missing, so only your side will be recorded.");
            r.hint(hint.as_str());
        },
        SystemAudioStatus::Unavailable { reason } => {
            r.warn("System audio is unavailable: ".to_owned().concat(reason.as_str()).as_str());
            r.hint("Only your microphone will be recorded.");
        },
    }
    if !mic {
        r.warn("The microphone is off, so your own voice will not be recorded.");
    }
    assert(r@ =~= gap_lines(*config, status@));
    r
}

pub open spec fn source_lines(config: Config, system: Option<Seq<char>>) -> Seq<LineView> {
    line_if(
        on_unless_off(config.meeting_mic),
        LineView::Field("Microphone"@, setting_or(config.audio_device, "default"@)),
    ) + line_if(
        on_unless_off(config.meeting_system),
        match system {
            Some(name) => LineView::Field("System audio"@, name),
            None => LineView::Warn(
                "System audio could not be opened; only your side is recorded."@,
            ),
        },
    )
}

/// The sources that are being recorded.
pub fn report_sources(config: &Config, system_name: &Option<String>) -> (r: Report)
    ensures
        r@ == source_lines(*config, opt_text(*system_name)),
{
    let (mic, system) = config.meeting_capture();
    let mut r = Report::new();
    if mic {
        r.field(
            "Microphone",
            match &config.audio_device {
                Some(name) => name.as_str(),
                None => "default",
            },
        );
    }
    if system {
        match system_name {
            Some(name) => {
                r.field("System audio", name.as_str());
            },
            None => {
                r.warn("System audio could not be opened; only your side is recorded.");
            },
        }
    }
    assert(r@ =~= source_lines(*config, opt_text(*system_name)));
    r
}

/// What a look at the state tells of a recorder that was started.
#[derive(Debug)]
pub enum StartProgress {
    Waiting,
    Recording,
    Failed(String),
}

/// A detached recorder that dies immediately looks exactly like one that started, so the
/// start is only confirmed by the recording phase.
pub fn start_progress(active: Option<&ActiveMeeting>) -> (r: StartProgress)
    ensures
        match r {
            StartProgress::Recording => active is Some && active->0.phase == Phase::Recording,
            StartProgress::Failed(e) => active is Some && active->0.phase == Phase::Failed && e@
                == "The recorder could not start: "@ + setting_or(active->0.error, "unknown"@),
            StartProgress::Waiting => active is None || (active->0.phase != Phase::Recording
                && active->0.phase != Phase::Failed),
        },
{
    match active {
        Some(m) => {
            if m.phase == Phase::Recording {
                return StartProgress::Recording;
            }
            if m.phase == Phase::Failed {
                let reason: &str = match &m.error {
                    Some(e) => e.as_str(),
                    None => "unknown",
                };
                return StartProgress::Failed(
                    "The recorder could not start: ".to_owned().concat(reason),
                );
            }
            StartProgress::Waiting
        },
        None => StartProgress::Waiting,
    }
}

// -------------------------------------------------------------------------- stopping

/// One line for each source. `peaks` holds their peaks as text.
pub open spec fn level_lines(levels: Seq<SourceLevel>, peaks: Seq<Seq<char>>) -> Seq<LineView> {
    Seq::new(
        levels.len(),
        |i: int|
            if levels[i].silent {
                LineView::Failure(levels[i].source@ + " was silent for the whole recording."@)
            } else {
                LineView::Field(levels[i].source@, "peak "@ + peaks[i])
            },
    )
}

pub open spec fn recorded_length(meeting: ActiveMeeting) -> int {
    match meeting.duration {
        Some(t) => t as int,
        None => 0,
    }
}

pub open spec fn stop_report_lines(meeting: ActiveMeeting, peaks: Seq<Seq<char>>) -> Seq<LineView> {
    seq![LineView::Success("Recorded "@ + clock_text(recorded_length(meeting)) + "."@)]
        + level_lines(meeting.source_levels@, peaks) + (if recorded_length(meeting)
        < SHORTEST_MEETING {
        seq![
            LineView::Warn("That is too short to be a meeting. Nothing was transcribed."@),
            LineView::Hint(
                "The audio is at "@ + (match meeting.audio_path {
                    Some(path) => path@,
                    None => Seq::<char>::empty(),
                }),
            ),
        ]
    } else {
        Seq::<LineView>::empty()
    })
}

/// What a stopped recording holds, and whether it is long enough to be a meeting.
pub fn stop_report(meeting: &ActiveMeeting, peaks: &Vec<String>) -> (r: (Report, bool))
    requires
        peaks@.len() == meeting.source_levels@.len(),
    ensures
        r.0@ == stop_report_lines(*meeting, texts(peaks@)),
        r.1 == (recorded_length(*meeting) >= SHORTEST_MEETING),
{
    let length: Time = match meeting.duration {
        Some(t) => t,
        None => 0,
    };
    let mut r = Report::new();
    r.success("Recorded ".to_owned().concat(clock(length).as_str()).concat(".").as_str());
    let ghost first = seq![
        LineView::Success("Recorded "@ + clock_text(recorded_length(*meeting)) + "."@),
    ];
    let levels = &meeting.source_levels;
    let ghost all = level_lines(levels@, texts(peaks@));
    let mut i: usize = 0;
    assert(r@ =~= first + all.take(0));
    while i < levels.len()
        invariant
            i <= levels.len(),
            peaks@.len() == levels@.len(),
            all == level_lines(levels@, texts(peaks@)),
            r@ == first + all.take(i as int),
        decreases levels.len() - i,
    {
        if levels[i].silent {
            r.failure(
                levels[i].source.clone().concat(" was silent for the whole recording.").as_str(),
            );
        } else {
            assert(texts(peaks@)[i as int] == peaks@[i as int]@);
            r.field(
                levels[i].source.as_str(),
                "peak ".to_owned().concat(peaks[i].as_str()).as_str(),
            );
        }
        assert(first + all.take(i + 1) =~= (first + all.take(i as int)).push(all[i as int]));
        i = i + 1;
    }
    assert(all.take(i as int) =~= all);
    if length < SHORTEST_MEETING {
        r.warn("That is too short to be a meeting. Nothing was transcribed.");
        let path: &str = match &meeting.audio_path {
            Some(path) => path.as_str(),
            None => "",
        };
        proof {
            reveal_strlit("");
            assert(""@ =~= Seq::<char>::empty());
        }
        r.hint("The audio is at ".to_owned().concat(path).as_str());
    }
    assert(r@ =~= stop_report_lines(*meeting, texts(peaks@)));
    (r, length >= SHORTEST_MEETING)
}

// ------------------------------------------------------------------------- the sample gate

/// The mode that was approved last, or else `transcribe`.
pub open spec fn last_mode(meeting_mode: Option<Seq<char>>) -> Mode {
    match meeting_mode {
        Some(name) => match Mode::named(ascii_lower(trimmed(name))) {
            Some(mode) => mode,
            None => Mode::Transcribe,
        },
        None => Mode::Transcribe,
    }
}

pub fn default_mode(config: &Config) -> (r: Mode)
    ensures
        r == last_mode(opt_text(config.meeting_mode)),
{
    match &config.meeting_mode {
        Some(name) => match Mode::from_name(name.as_str()) {
            Some(mode) => mode,
            None => Mode::Transcribe,
        },
        None => Mode::Transcribe,
    }
}

/// How a recording goes on.
#[derive(Debug, Clone, Copy, PartialEq, Eq, Structural)]
pub enum Route {
    /// No sample can be cut, so the whole file is transcribed in one pass.
    Blocked(Mode),
    /// The sample gate is switched off.
    Direct(Mode),
    /// A sample is transcribed first, and waits for approval.
    Gate,
}

pub open spec fn route_of(meeting: ActiveMeeting, config: Config) -> Route {
    let mode = last_mode(opt_text(config.meeting_mode));
    if meeting.gate_blocked is Some {
        Route::Blocked(mode)
    } else if !on_unless_off(config.meeting_gate) {
        Route::Direct(mode)
    } else {
        Route::Gate
    }
}

pub open spec fn route_lines(meeting: ActiveMeeting, route: Route) -> Seq<LineView> {
    match route {
        Route::Blocked(mode) => seq![
            LineView::Warn(meeting.gate_blocked->0@),
            LineView::Hint("Install ffmpeg to enable the sample check for non-WAV files."@),
            LineView::Info("Transcribing in `"@ + mode.name() + "` mode."@),
        ],
        Route::Direct(mode) => seq![
            LineView::Info(
                "Sample gate is off, transcribing directly in `"@ + mode.name() + "` mode."@,
            ),
        ],
        Route::Gate => Seq::<LineView>::empty(),
    }
}

/// Whether a recording goes through the sample gate, and what is said where it does not.
pub fn choose_route(meeting: &ActiveMeeting, config: &Config) -> (r: (Route, Report))
    ensures
        r.0 == route_of(*meeting, *config),
        r.1@ == route_lines(*meeting, r.0),
{
    let mode = default_mode(config);
    let mut report = Report::new();
    match &meeting.gate_blocked {
        Some(reason) => {
            report.warn(reason.as_str());
            report.hint("Install ffmpeg to enable the sample check for non-WAV files.");
            report.info(
                "Transcribing in `".to_owned().concat(mode.as_str()).concat("` mode.").as_str(),
            );
            assert(report@ =~= route_lines(*meeting, Route::Blocked(mode)));
            return (Route::Blocked(mode), report);
        },
        None => {},
    }
    if !config.meeting_gate_enabled() {
        report.info(
            "Sample gate is off, transcribing directly in `".to_owned().concat(
                mode.as_str(),
            ).concat("` mode.").as_str(),
        );
        assert(report@ =~= route_lines(*meeting, Route::Direct(mode)));
        return (Route::Direct(mode), report);
    }
    (Route::Gate, report)
}

/// Unless it is switched off or cannot run, nothing is transcribed in full before someone
/// has looked at a sample.
pub proof fn the_gate_is_not_passed_by(meeting: ActiveMeeting, config: Config)
    requires
        on_unless_off(config.meeting_gate),
        meeting.gate_blocked is None,
    ensures
        route_of(meeting, config) == Route::Gate,
{
}

/// A meeting whose run failed, kept to be tried again.
pub open spec fn as_kept(meeting: ActiveMeeting, error: String) -> ActiveMeeting {
    ActiveMeeting { phase: Phase::Recorded, error: Some(error), ..meeting }
}

/// A run failed: the recording is kept, to be tried again.
pub fn mark_retry(meeting: &mut ActiveMeeting, error: String)
    ensures
        *final(meeting) == (ActiveMeeting {
            phase: Phase::Recorded,
            error: Some(error),
            ..*old(meeting)
        }),
        *final(meeting) == as_kept(*old(meeting), error),
{
    meeting.phase = Phase::Recorded;
    meeting.error = Some(error);
}

/// A meeting whose sample waits for approval.
pub open spec fn as_awaiting(meeting: ActiveMeeting, report: SampleReport) -> ActiveMeeting {
    ActiveMeeting { phase: Phase::AwaitingApproval, sample: Some(report), error: None, ..meeting }
}

/// The sample is there, and waits for approval.
pub fn mark_awaiting(meeting: &mut ActiveMeeting, report: SampleReport)
    ensures
        *final(meeting) == (ActiveMeeting {
            phase: Phase::AwaitingApproval,
            sample: Some(report),
            error: None,
            ..*old(meeting)
        }),
        *final(meeting) == as_awaiting(*old(meeting), report),
{
    meeting.phase = Phase::AwaitingApproval;
    meeting.sample = Some(report);
    meeting.error = None;
}

/// A meeting that is transcribed in a mode.
pub open spec fn as_transcribing(meeting: ActiveMeeting, mode: Mode) -> ActiveMeeting {
    ActiveMeeting { phase: Phase::Transcribing, approved_mode: Some(mode), ..meeting }
}

/// The full run starts in a mode.
pub fn mark_transcribing(meeting: &mut ActiveMeeting, mode: Mode)
    ensures
        *final(meeting) == (ActiveMeeting {
            phase: Phase::Transcribing,
            approved_mode: Some(mode),
            ..*old(meeting)
        }),
        *final(meeting) == as_transcribing(*old(meeting), mode),
{
    meeting.phase = Phase::Transcribing;
    meeting.approved_mode = Some(mode);
}

/// A meeting whose words are summarised.
pub open spec fn as_summarising(meeting: ActiveMeeting, mode: Mode) -> ActiveMeeting {
    ActiveMeeting { phase: Phase::Summarising, approved_mode: Some(mode), ..meeting }
}

/// The words are there, and are summarised.
pub fn mark_summarising(meeting: &mut ActiveMeeting, mode: Mode)
    ensures
        *final(meeting) == (ActiveMeeting {
            phase: Phase::Summarising,
            approved_mode: Some(mode),
            ..*old(meeting)
        }),
        *final(meeting) == as_summarising(*old(meeting), mode),
{
    meeting.phase = Phase::Summarising;
    meeting.approved_mode = Some(mode);
}

/// A meeting whose deliverables are written.
pub open spec fn as_done(meeting: ActiveMeeting, mode: Mode) -> ActiveMeeting {
    ActiveMeeting { phase: Phase::Done, approved_mode: Some(mode), ..meeting }
}

/// The deliverables are written.
pub fn mark_done(meeting: &mut ActiveMeeting, mode: Mode)
    ensures
        *final(meeting) == (ActiveMeeting {
            phase: Phase::Done,
            approved_mode: Some(mode),
            ..*old(meeting)
        }),
        *final(meeting) == as_done(*old(meeting), mode),
{
    meeting.phase = Phase::Done;
    meeting.approved_mode = Some(mode);
}

/// A failed run never costs the recording: the audio stays where it was, and the meeting can
/// be resumed.
pub proof fn a_failed_run_keeps_the_recording(before: ActiveMeeting, after: ActiveMeeting)
    requires
        after == (ActiveMeeting { phase: Phase::Recorded, error: after.error, ..before }),
    ensures
        after.audio_path == before.audio_path,
        after.source_levels == before.source_levels,
        in_flight(Some((after.id@, after.phase))) is None,
{
}

/// Whether the sampled window is nearly silent: its RMS is below a two-hundredth of full
/// scale.
pub open spec fn nearly_silent(rms: Seq<char>) -> bool {
    seconds_written(rms) * 200 < SECOND
}

fn is_nearly_silent(rms: &str) -> (r: bool)
    ensures
        r == nearly_silent(rms@),
{
    parse_seconds(rms) < SECOND / 200
}

/// How many lines of a candidate are shown.
pub const SHOWN_LINES: usize = 12;

pub open spec fn text_lines(text: Seq<char>) -> Seq<LineView> {
    let all = lines_of(text);
    let n = if all.len() < SHOWN_LINES {
        all.len()
    } else {
        SHOWN_LINES as nat
    };
    Seq::new(n, |i: int| LineView::Info(all[i])) + line_if(
        all.len() > SHOWN_LINES,
        LineView::Hint(
            "... and "@ + decimal((all.len() - SHOWN_LINES) as nat) + " more line(s)"@,
        ),
    )
}

fn write_text_lines(text: &str) -> (r: Report)
    ensures
        r@ == text_lines(text@),
{
    let all = lines(text);
    let ghost list = lines_of(text@);
    assert(texts(all@).len() == all.len());
    let count: usize = if all.len() < SHOWN_LINES {
        all.len()
    } else {
        SHOWN_LINES
    };
    let ghost shown = Seq::new(count as nat, |i: int| LineView::Info(list[i]));
    let mut r = Report::new();
    let mut i: usize = 0;
    assert(r@ =~= shown.take(0));
    while i < count
        invariant
            i <= count <= all.len(),
            list == texts(all@),
            shown == Seq::new(count as nat, |i: int| LineView::Info(list[i])),
            r@ == shown.take(i as int),
        decreases count - i,
    {
        r.info(all[i].as_str());
        assert(shown.take(i + 1) =~= shown.take(i as int).push(shown[i as int]));
        i = i + 1;
    }
    assert(shown.take(count as int) =~= shown);
    if all.len() > SHOWN_LINES {
        r.hint(
            "... and ".to_owned().concat(to_decimal((all.len() - SHOWN_LINES) as u64).as_str()).concat(
                " more line(s)",
            ).as_str(),
        );
    }
    assert(r@ =~= text_lines(text@));
    r
}

pub open spec fn coverage_words(candidate: SampleCandidate) -> Seq<char> {
    match candidate.covered {
        Some(covered) => clock_text(covered as int) + " of "@ + clock_text(
            candidate.sample_length as int,
        ) + " of sample"@,
        None => "no timestamps returned"@,
    }
}

/// What is shown of a candidate: its error, or the measurements behind it and its first
/// lines. The language is named as detection every time it is shown: it says which language
/// was heard, not whether the words are right.
pub open spec fn candidate_lines(candidate: SampleCandidate) -> Seq<LineView> {
    seq![LineView::Blank, LineView::Heading("Mode: "@ + candidate.mode.name())] + (
    match candidate.error {
        Some(e) => seq![LineView::Failure(e@)],
        None => seq![
            LineView::Field("Took"@, clock_text(candidate.elapsed as int)),
            LineView::Field("Coverage"@, coverage_words(candidate)),
            LineView::Field(
                "Language detected"@,
                setting_or(candidate.detected_language, "not reported"@),
            ),
            LineView::Field(
                "Diarization"@,
                decimal(candidate.segment_count as nat) + " segments, "@ + decimal(
                    candidate.speaker_labels as nat,
                ) + " generic speaker label(s), "@ + decimal(
                    candidate.overlapping_segments as nat,
                ) + " overlapping"@,
            ),
            LineView::Blank,
        ] + text_lines(candidate.text@),
    })
}

fn write_candidate(candidate: &SampleCandidate) -> (r: Report)
    ensures
        r@ == candidate_lines(*candidate),
{
    let mut r = Report::new();
    r.blank();
    r.heading("Mode: ".to_owned().concat(candidate.mode.as_str()).as_str());
    if let Some(e) = &candidate.error {
        r.failure(e.as_str());
        assert(r@ =~= candidate_lines(*candidate));
        return r;
    }
    r.field("Took", clock(candidate.elapsed).as_str());
    let coverage = match candidate.covered {
        Some(covered) => clock(covered).concat(" of ").concat(
            clock(candidate.sample_length).as_str(),
        ).concat(" of sample"),
        None => "no timestamps returned".to_owned(),
    };
    r.field("Coverage", coverage.as_str());
    r.field(
        "Language detected",
        match &candidate.detected_language {
            Some(code) => code.as_str(),
            None => "not reported",
        },
    );
    r.field(
        "Diarization",
        to_decimal(candidate.segment_count as u64).concat(" segments, ").concat(
            to_decimal(candidate.speaker_labels as u64).as_str(),
        ).concat(" generic speaker label(s), ").concat(
            to_decimal(candidate.overlapping_segments as u64).as_str(),
        ).concat(" overlapping").as_str(),
    );
    r.blank();
    r.append(write_text_lines(candidate.text.as_str()));
    assert(r@ =~= candidate_lines(*candidate));
    r
}

pub open spec fn all_candidate_lines(candidates: Seq<SampleCandidate>) -> Seq<LineView>
    decreases candidates.len(),
{
    if candidates.len() == 0 {
        Seq::<LineView>::empty()
    } else {
        all_candidate_lines(candidates.drop_last()) + candidate_lines(candidates.last())
    }
}

/// The window that was sampled. `rms` is its RMS as text.
pub open spec fn window_lines(report: SampleReport, rms: Seq<char>) -> Seq<LineView> {
    seq![
        LineView::Heading("Sample quality check"@),
        LineView::Field(
            "Window"@,
            clock_text(report.window_length as int) + " of audio from "@ + clock_text(
                report.window_start as int,
            ),
        ),
        LineView::Field("Window RMS"@, rms),
    ] + line_if(
        nearly_silent(report.window_rms@),
        LineView::Warn("That window is nearly silent, so neither transcript means much."@),
    )
}

pub open spec fn sample_lines(report: SampleReport, rms: Seq<char>) -> Seq<LineView> {
    window_lines(report, rms) + all_candidate_lines(report.candidates@) + seq![
        LineView::Blank,
        LineView::Hint(
            "Speaker labels are generic, not people. Check names and numbers against the audio."@,
        ),
        LineView::Hint("Language detection is not a measure of word accuracy."@),
    ]
}

/// The candidates and the measurements behind them.
pub fn show_sample(report: &SampleReport, rms: &str) -> (r: Report)
    ensures
        r@ == sample_lines(*report, rms@),
{
    let mut r = Report::new();
    r.heading("Sample quality check");
    r.field(
        "Window",
        clock(report.window_length).concat(" of audio from ").concat(
            clock(report.window_start).as_str(),
        ).as_str(),
    );
    r.field("Window RMS", rms);
    if is_nearly_silent(report.window_rms.as_str()) {
        r.warn("That window is nearly silent, so neither transcript means much.");
    }
    let ghost first = window_lines(*report, rms@);
    assert(r@ =~= first);
    let candidates = &report.candidates;
    let mut i: usize = 0;
    assert(r@ =~= first + all_candidate_lines(candidates@.take(0)));
    while i < candidates.len()
        invariant
            i <= candidates.len(),
            r@ == first + all_candidate_lines(candidates@.take(i as int)),
        decreases candidates.len() - i,
    {
        assert(candidates@.take(i + 1).drop_last() == candidates@.take(i as int));
        assert(candidates@.take(i + 1).last() == candidates@[i as int]);
        r.append(write_candidate(&candidates[i]));
        assert(r@ =~= first + all_candidate_lines(candidates@.take(i + 1)));
        i = i + 1;
    }
    assert(candidates@.take(i as int) == candidates@);
    r.blank();
    r.hint("Speaker labels are generic, not people. Check names and numbers against the audio.");
    r.hint("Language detection is not a measure of word accuracy.");
    assert(r@ =~= sample_lines(*report, rms@));
    r
}

/// The modes whose sample worked.
pub open spec fn usable_modes(candidates: Seq<SampleCandidate>) -> Seq<Mode>
    decreases candidates.len(),
{
    if candidates.len() == 0 {
        Seq::<Mode>::empty()
    } else {
        let before = usable_modes(candidates.drop_last());
        if candidates.last().error is None {
            before.push(candidates.last().mode)
        } else {
            before
        }
    }
}

pub open spec fn choice(mode: Mode) -> Seq<char> {
    "Use `"@ + mode.name() + "`"@
}

pub const REJECT_CHOICE: &'static str = "Reject — do not transcribe";

/// What can be picked after a sample.
#[derive(Debug)]
pub struct ModeChoices {
    pub modes: Vec<Mode>,
    /// One label for each mode, and one to reject.
    pub labels: Vec<String>,
}

pub fn mode_choices(report: &SampleReport) -> (r: Result<ModeChoices, String>)
    ensures
        match r {
            Ok(c) => {
                &&& c.modes@ == usable_modes(report.candidates@)
                &&& c.modes@.len() > 0
                &&& texts(c.labels@) == Seq::new(
                    c.modes@.len(),
                    |i: int| choice(c.modes@[i]),
                ).push(REJECT_CHOICE@)
            },
            Err(e) => usable_modes(report.candidates@).len() == 0 && e@
                == "Neither sample transcription succeeded."@,
        },
{
    let candidates = &report.candidates;
    let mut modes: Vec<Mode> = Vec::new();
    let mut labels: Vec<String> = Vec::new();
    let mut i: usize = 0;
    assert(texts(labels@) =~= Seq::new(modes@.len(), |i: int| choice(modes@[i])));
    while i < candidates.len()
        invariant
            i <= candidates.len(),
            modes@ == usable_modes(candidates@.take(i as int)),
            texts(labels@) == Seq::new(modes@.len(), |i: int| choice(modes@[i])),
        decreases candidates.len() - i,
    {
        assert(candidates@.take(i + 1).drop_last() == candidates@.take(i as int));
        assert(candidates@.take(i + 1).last() == candidates@[i as int]);
        if candidates[i].error.is_none() {
            let mode = candidates[i].mode;
            modes.push(mode);
            labels.push("Use `".to_owned().concat(mode.as_str()).concat("`"));
            assert(texts(labels@) =~= Seq::new(modes@.len(), |i: int| choice(modes@[i])));
        }
        i = i + 1;
    }
    assert(candidates@.take(i as int) == candidates@);
    if modes.len() == 0 {
        return Err("Neither sample transcription succeeded.".to_owned());
    }
    labels.push(REJECT_CHOICE.to_owned());
    Ok(ModeChoices { modes, labels })
}

/// The mode that a label picks. `None` for the one that rejects.
pub fn ask_for_mode(choices: &ModeChoices, picked: usize) -> (r: Option<Mode>)
    ensures
        r == (if picked < choices.modes@.len() {
            Some(choices.modes@[picked as int])
        } else {
            None
        }),
{
    if picked < choices.modes.len() {
        Some(choices.modes[picked])
    } else {
        None
    }
}

// ---------------------------------------------------------------- approve, reject

pub open spec fn no_approval(active: Option<(Seq<char>, Phase)>) -> Option<Seq<char>> {
    match active {
        None => Some("No meeting is waiting for approval."@),
        Some((id, phase)) => if phase != Phase::AwaitingApproval {
            Some("Meeting "@ + id + " is "@ + phase.name() + ", not waiting for approval."@)
        } else {
            None
        },
    }
}

/// How an approval is given.
#[derive(Debug, Clone, Copy, PartialEq, Eq, Structural)]
pub enum Approval {
    /// In a mode that was named.
    Mode(Mode),
    /// The sample is shown, and the mode asked for.
    Ask,
}

/// Why an approval is refused, once a meeting waits for one. `plain` is the name that was
/// given, trimmed and in lower case.
pub open spec fn approval_refusal(
    name: Option<Seq<char>>,
    plain: Seq<char>,
    has_sample: bool,
    is_terminal: bool,
) -> Option<Seq<char>> {
    match name {
        Some(name) => if Mode::named(plain) is None {
            Some("Unknown mode \""@ + name + "\". Use transcribe or codemix."@)
        } else {
            None
        },
        None => if !has_sample {
            Some("This meeting has no sample to approve."@)
        } else if !is_terminal {
            Some("Name the mode: nbmeet approve transcribe|codemix"@)
        } else {
            None
        },
    }
}

pub open spec fn plain_name(name: Option<Seq<char>>) -> Seq<char> {
    match name {
        Some(name) => ascii_lower(trimmed(name)),
        None => Seq::<char>::empty(),
    }
}

/// Whether a meeting may be transcribed in full: it waits for approval, and the mode is
/// named or can be asked for.
pub fn approve(active: Option<&ActiveMeeting>, name: &Option<String>, is_terminal: bool) -> (r:
    Result<Approval, String>)
    ensures
        ({
            let refusal = approval_refusal(
                opt_text(*name),
                plain_name(opt_text(*name)),
                active->0.sample is Some,
                is_terminal,
            );
            match r {
                Ok(approval) => no_approval(active_view(active)) is None && refusal is None
                    && approval == (match name {
                    Some(n) => Approval::Mode(Mode::named(plain_name(Some(n@)))->0),
                    None => Approval::Ask,
                }),
                Err(e) => if no_approval(active_view(active)) is Some {
                    no_approval(active_view(active)) == Some(e@)
                } else {
                    refusal == Some(e@)
                },
            }
        }),
{
    let meeting = match active {
        Some(m) => m,
        None => {
            return Err("No meeting is waiting for approval.".to_owned());
        },
    };
    if meeting.phase != Phase::AwaitingApproval {
        return Err(
            "Meeting ".to_owned().concat(meeting.id.as_str()).concat(" is ").concat(
                meeting.phase.as_str(),
            ).concat(", not waiting for approval."),
        );
    }
    match name {
        Some(n) => match Mode::from_name(n.as_str()) {
            Some(mode) => Ok(Approval::Mode(mode)),
            None => Err(
                "Unknown mode \"".to_owned().concat(n.as_str()).concat(
                    "\". Use transcribe or codemix.",
                ),
            ),
        },
        None => {
            if meeting.sample.is_none() {
                return Err("This meeting has no sample to approve.".to_owned());
            }
            if !is_terminal {
                return Err("Name the mode: nbmeet approve transcribe|codemix".to_owned());
            }
            Ok(Approval::Ask)
        },
    }
}

/// A meeting whose sample was discarded.
pub open spec fn as_rejected(meeting: ActiveMeeting) -> ActiveMeeting {
    ActiveMeeting { phase: Phase::Recorded, sample: None, ..meeting }
}

/// Discards a sample. The recording is kept, and nothing is transcribed in full.
pub fn reject(meeting: &mut ActiveMeeting) -> (r: Result<(), String>)
    ensures
        match r {
            Ok(_) => old(meeting).phase == Phase::AwaitingApproval && *final(meeting) == (
            ActiveMeeting { phase: Phase::Recorded, sample: None, ..*old(meeting) })
                && *final(meeting) == as_rejected(*old(meeting)),
            Err(e) => old(meeting).phase != Phase::AwaitingApproval && *final(meeting) == *old(
                meeting,
            ) && e@ == "Meeting "@ + old(meeting).id@ + " is not waiting for approval."@,
        },
{
    if meeting.phase != Phase::AwaitingApproval {
        return Err(
            "Meeting ".to_owned().concat(meeting.id.as_str()).concat(
                " is not waiting for approval.",
            ),
        );
    }
    meeting.phase = Phase::Recorded;
    meeting.sample = None;
    Ok(())
}

// ------------------------------------------------------------------------- finished

pub open spec fn item_line(item: ActionItemView) -> LineView {
    LineView::Info(
        "["@ + item.confidence.name() + "] "@ + item.task + (match item.owner {
            Some(owner) => " — "@ + owner,
            None => Seq::<char>::empty(),
        }),
    )
}

pub open spec fn summary_lines(summary: Option<AnalysisView>) -> Seq<LineView> {
    match summary {
        Some(a) => seq![
            LineView::Blank,
            LineView::Field("Title"@, a.title),
            LineView::Field("Decisions"@, decimal(a.decisions.len())),
            LineView::Field("Action items"@, decimal(a.action_items.len())),
        ] + Seq::new(a.action_items.len(), |i: int| item_line(a.action_items[i])),
        None => seq![
            LineView::Warn("No summary was produced; the transcript is complete."@),
        ],
    }
}

fn write_item_line(item: &ActionItem) -> (r: Line)
    ensures
        r@ == item_line(item@),
{
    let owner = match &item.owner {
        Some(owner) => " — ".to_owned().concat(owner.as_str()),
        None => String::new(),
    };
    Line::Info(
        "[".to_owned().concat(item.confidence.as_str()).concat("] ").concat(
            item.task.as_str(),
        ).concat(owner.as_str()),
    )
}

fn write_summary(summary: Option<&Analysis>) -> (r: Report)
    ensures
        r@ == summary_lines(opt_analysis(summary)),
{
    let mut r = Report::new();
    let a = match summary {
        Some(a) => a,
        None => {
            r.warn("No summary was produced; the transcript is complete.");
            assert(r@ =~= summary_lines(opt_analysis(summary)));
            return r;
        },
    };
    assert(texts(a.decisions@).len() == a.decisions.len());
    r.blank();
    r.field("Title", a.title.as_str());
    r.field("Decisions", to_decimal(a.decisions.len() as u64).as_str());
    r.field("Action items", to_decimal(a.action_items.len() as u64).as_str());
    let ghost first = seq![
        LineView::Blank,
        LineView::Field("Title"@, a.title@),
        LineView::Field("Decisions"@, decimal(a@.decisions.len())),
        LineView::Field("Action items"@, decimal(a@.action_items.len())),
    ];
    let ghost all = Seq::new(a@.action_items.len(), |i: int| item_line(a@.action_items[i]));
    let mut i: usize = 0;
    assert(r@ =~= first + all.take(0));
    while i < a.action_items.len()
        invariant
            i <= a.action_items.len(),
            all == Seq::new(a@.action_items.len(), |i: int| item_line(a@.action_items[i])),
            r@ == first + all.take(i as int),
        decreases a.action_items.len() - i,
    {
        r.line(write_item_line(&a.action_items[i]));
        assert(all[i as int] == item_line(a.action_items@[i as int]@));
        assert(first + all.take(i + 1) =~= (first + all.take(i as int)).push(all[i as int]));
        i = i + 1;
    }
    assert(all.take(i as int) =~= all);
    r
}

pub open spec fn wrote_lines(files: Seq<Seq<char>>) -> Seq<LineView> {
    Seq::new(files.len(), |i: int| LineView::Field("Wrote"@, files[i]))
}

pub open spec fn completed_lines(
    partial: bool,
    summary: Option<AnalysisView>,
    files: Seq<Seq<char>>,
) -> Seq<LineView> {
    seq![LineView::Success("Meeting notes are ready."@)] + line_if(
        partial,
        LineView::Warn(
            "The transcription job only partly completed; the notes say which parts."@,
        ),
    ) + summary_lines(summary) + seq![LineView::Blank] + wrote_lines(files)
}

/// What a finished meeting left behind.
pub fn completed_report(partial: bool, summary: Option<&Analysis>, files: &Vec<String>) -> (r: Report)
    ensures
        r@ == completed_lines(partial, opt_analysis(summary), texts(files@)),
{
    let mut r = Report::new();
    r.success("Meeting notes are ready.");
    if partial {
        r.warn("The transcription job only partly completed; the notes say which parts.");
    }
    r.append(write_summary(summary));
    r.blank();
    let ghost first = r@;
    assert(first =~= seq![LineView::Success("Meeting notes are ready."@)] + line_if(
        partial,
        LineView::Warn("The transcription job only partly completed; the notes say which parts."@),
    ) + summary_lines(opt_analysis(summary)) + seq![LineView::Blank]);
    let ghost all = wrote_lines(texts(files@));
    let mut i: usize = 0;
    assert(r@ =~= first + all.take(0));
    while i < files.len()
        invariant
            i <= files.len(),
            all == wrote_lines(texts(files@)),
            r@ == first + all.take(i as int),
        decreases files.len() - i,
    {
        r.field("Wrote", files[i].as_str());
        assert(first + all.take(i + 1) =~= (first + all.take(i as int)).push(all[i as int]));
        i = i + 1;
    }
    assert(all.take(i as int) =~= all);
    r
}

// --------------------------------------------------------------------------- laws

/// A meeting can be started exactly where no other is being captured, waits for approval, or was
/// recorded and not transcribed.
pub proof fn a_meeting_can_start_where_none_is_open(active: Option<(Seq<char>, Phase)>)
    ensures
        busy_reason(active) is None <==> (active is None || (active matches Some((id, phase)) && (
        phase == Phase::Sampling || phase == Phase::Transcribing || phase == Phase::Summarising
            || phase == Phase::Done || phase == Phase::Failed))),
{
}

/// A recording is sampled first, but where that is blocked or switched off. Then it is transcribed
/// in the mode that was approved last.
pub proof fn a_recording_is_sampled_first(meeting: ActiveMeeting, config: Config)
    ensures
        route_of(meeting, config) is Gate <==> meeting.gate_blocked is None && config.meeting_gate
            != Some(false),
        route_of(meeting, config) is Blocked <==> meeting.gate_blocked is Some,
        route_of(meeting, config) is Direct <==> meeting.gate_blocked is None
            && config.meeting_gate == Some(false),
        route_of(meeting, config) is Blocked ==> route_of(meeting, config)->Blocked_0 == last_mode(
            opt_text(config.meeting_mode),
        ),
        route_of(meeting, config) is Direct ==> route_of(meeting, config)->Direct_0 == last_mode(
            opt_text(config.meeting_mode),
        ),
{
}

/// The mode that counts is the one that was approved last, and the plain one before any was.
pub proof fn the_mode_approved_last_counts(name: Seq<char>)
    ensures
        Mode::named(ascii_lower(trimmed(name))) is Some ==> last_mode(Some(name)) == Mode::named(
            ascii_lower(trimmed(name)),
        )->0,
        Mode::named(ascii_lower(trimmed(name))) is None ==> last_mode(Some(name))
            == Mode::Transcribe,
        last_mode(None) == Mode::Transcribe,
{
}

/// The modes that can be chosen are those whose sample did not fail, in their order.
pub proof fn a_mode_can_be_chosen_where_its_sample_worked(candidates: Seq<SampleCandidate>)
    ensures
        usable_modes(candidates) == candidates.filter(
            |c: SampleCandidate| c.error is None,
        ).map_values(|c: SampleCandidate| c.mode),
    decreases candidates.len(),
{
    reveal(Seq::filter);
    let p = |c: SampleCandidate| c.error is None;
    let f = |c: SampleCandidate| c.mode;
    if candidates.len() > 0 {
        let front = candidates.drop_last();
        a_mode_can_be_chosen_where_its_sample_worked(front);
        if p(candidates.last()) {
            assert(front.filter(p).push(candidates.last()).map_values(f) =~= front.filter(
                p,
            ).map_values(f).push(f(candidates.last())));
        }
    } else {
        assert(candidates.filter(p).map_values(f) =~= Seq::<Mode>::empty());
    }
}

proof fn candidate_lines_of_both(a: Seq<SampleCandidate>, b: Seq<SampleCandidate>)
    ensures
        all_candidate_lines(a + b) == all_candidate_lines(a) + all_candidate_lines(b),
    decreases b.len(),
{
    if b.len() == 0 {
        assert(a + b == a);
        assert(all_candidate_lines(a) + all_candidate_lines(b) == all_candidate_lines(a));
    } else {
        assert((a + b).drop_last() == a + b.drop_last());
        assert((a + b).last() == b.last());
        candidate_lines_of_both(a, b.drop_last());
        let last = candidate_lines(b.last());
        assert(all_candidate_lines(a) + (all_candidate_lines(b.drop_last()) + last)
            =~= all_candidate_lines(a) + all_candidate_lines(b.drop_last()) + last);
    }
}

/// Every candidate is shown, in order, under its own mode: its error where it failed, and else its
/// text.
pub proof fn every_candidate_is_shown(candidates: Seq<SampleCandidate>, i: int)
    requires
        0 <= i < candidates.len(),
    ensures
        ({
            let c = candidates[i];
            let own = candidate_lines(c);
            &&& all_candidate_lines(candidates) == all_candidate_lines(candidates.take(i)) + own
                + all_candidate_lines(candidates.skip(i + 1))
            &&& own[1] == LineView::Heading("Mode: "@ + c.mode.name())
            &&& c.error is Some ==> own.last() == LineView::Failure(c.error->0@)
            &&& c.error is None ==> text_lines(c.text@).is_suffix_of(own)
        }),
{
    reveal_with_fuel(all_candidate_lines, 2);
    let one = seq![candidates[i]];
    assert(candidates == candidates.take(i) + one + candidates.skip(i + 1));
    candidate_lines_of_both(candidates.take(i) + one, candidates.skip(i + 1));
    candidate_lines_of_both(candidates.take(i), one);
    assert(one.drop_last() == Seq::<SampleCandidate>::empty());
    assert(one.last() == candidates[i]);
    let own = candidate_lines(candidates[i]);
    assert(all_candidate_lines(one) =~= own);
    if candidates[i].error is None {
        let text = text_lines(candidates[i].text@);
        assert(own.subrange(own.len() - text.len(), own.len() as int) =~= text);
    }
}

/// The text of a sample is shown from its first line on, twelve lines of it, and it is said how
/// many are left out.
pub proof fn a_sample_is_shown_from_its_beginning(text: Seq<char>, i: int)
    ensures
        ({
            let all = lines_of(text);
            let shown = text_lines(text);
            &&& 0 <= i < all.len() && i < 12 ==> shown[i] == LineView::Info(all[i])
            &&& all.len() <= 12 ==> shown.len() == all.len()
            &&& all.len() > 12 ==> shown.len() == 13 && shown[12] is Hint
        }),
{
}

/// A meeting is approved exactly while it waits for it, in a mode that is known. Without a mode it
/// can only be asked for, with a sample and at a terminal.
pub proof fn an_approval_needs_a_mode(
    active: Option<(Seq<char>, Phase)>,
    name: Option<Seq<char>>,
    plain: Seq<char>,
    has_sample: bool,
    is_terminal: bool,
)
    ensures
        no_approval(active) is None <==> (active matches Some((id, phase)) && phase
            == Phase::AwaitingApproval),
        approval_refusal(name, plain, has_sample, is_terminal) is None <==> (if name is Some {
            Mode::named(plain) is Some
        } else {
            has_sample && is_terminal
        }),
{
}

/// What was found is shown: the title, how many decisions and action items there are, and each
/// action item with its task and its owner.
pub proof fn what_was_found_is_shown(a: AnalysisView, i: int)
    ensures
        ({
            let shown = summary_lines(Some(a));
            &&& shown.contains(LineView::Field("Title"@, a.title))
            &&& shown.contains(LineView::Field("Decisions"@, decimal(a.decisions.len())))
            &&& shown.contains(LineView::Field("Action items"@, decimal(a.action_items.len())))
            &&& 0 <= i < a.action_items.len() ==> ({
                let item = a.action_items[i];
                &&& shown[4 + i] is Info
                &&& has(shown[4 + i]->Info_0, item.task)
                &&& item.owner is Some ==> item.owner->0.is_suffix_of(shown[4 + i]->Info_0)
            })
            &&& shown.len() == 4 + a.action_items.len()
        }),
{
    let shown = summary_lines(Some(a));
    assert(shown[1] == LineView::Field("Title"@, a.title));
    assert(shown[2] == LineView::Field("Decisions"@, decimal(a.decisions.len())));
    assert(shown[3] == LineView::Field("Action items"@, decimal(a.action_items.len())));
    if 0 <= i < a.action_items.len() {
        let item = a.action_items[i];
        let lead = "["@ + item.confidence.name() + "] "@;
        let rest = match item.owner {
            Some(owner) => " — "@ + owner,
            None => Seq::<char>::empty(),
        };
        stands_inside(lead, item.task, rest);
        let line = lead + item.task + rest;
        assert(shown[4 + i] == LineView::Info(line));
        if item.owner is Some {
            let n = item.owner->0.len() as int;
            assert(line.subrange(line.len() - n, line.len() as int) =~= item.owner->0);
        }
    }
}

/// Every file that was written is named, in order.
pub proof fn every_file_written_is_named(
    partial: bool,
    summary: Option<AnalysisView>,
    files: Seq<Seq<char>>,
    i: int,
)
    requires
        0 <= i < files.len(),
    ensures
        ({
            let shown = completed_lines(partial, summary, files);
            &&& shown[shown.len() - files.len() + i] == LineView::Field("Wrote"@, files[i])
            &&& shown[0] is Success
            &&& partial ==> shown[1] is Warn
        }),
{
}

/// A source is reported as failed exactly where it was silent throughout.
pub proof fn a_silent_source_is_reported(
    levels: Seq<SourceLevel>,
    peaks: Seq<Seq<char>>,
    i: int,
)
    requires
        0 <= i < levels.len(),
    ensures
        level_lines(levels, peaks).len() == levels.len(),
        level_lines(levels, peaks)[i] is Failure <==> levels[i].silent,
        levels[i].silent ==> levels[i].source@.is_prefix_of(
            level_lines(levels, peaks)[i]->Failure_0,
        ),
        !levels[i].silent ==> level_lines(levels, peaks)[i] == LineView::Field(
            levels[i].source@,
            "peak "@ + peaks[i],
        ),
{
    let text = levels[i].source@ + " was silent for the whole recording."@;
    assert(text.take(levels[i].source@.len() as int) =~= levels[i].source@);
}

/// What will be missing from a recording is said before it starts: the others where system audio
/// is off or cannot be had, and the user where the microphone is.
pub proof fn what_will_be_missing_is_said(config: Config, status: SystemStatusView)
    ensures
        gap_lines(config, status).len() == 0 <==> config.meeting_system != Some(false)
            && config.meeting_mic != Some(false) && status is Ready,
        gap_lines(config, status).len() > 0 ==> gap_lines(config, status)[0] is Warn,
{
}

/// A recording of less than five seconds is not transcribed, and that is said.
pub proof fn a_short_recording_is_not_transcribed(meeting: ActiveMeeting, peaks: Seq<Seq<char>>)
    requires
        meeting.duration is Some,
    ensures
        ({
            let shown = stop_report_lines(meeting, peaks);
            let levels = meeting.source_levels@.len() as int;
            &&& shown[0] == LineView::Success(
                "Recorded "@ + clock_text(meeting.duration->0 as int) + "."@,
            )
            &&& shown.len() == levels + 1 <==> meeting.duration->0 >= 5 * SECOND
            &&& meeting.duration->0 < 5 * SECOND ==> shown[levels + 1] is Warn
        }),
{
}

/// Whether two states are of the same recording.
pub open spec fn is_same_recording(a: ActiveMeeting, b: ActiveMeeting) -> bool {
    &&& a.id == b.id
    &&& a.started_at == b.started_at
    &&& a.audio_path == b.audio_path
    &&& a.duration == b.duration
    &&& a.source_levels == b.source_levels
    &&& a.sample_source == b.sample_source
    &&& a.gate_blocked == b.gate_blocked
    &&& a.imported == b.imported
}

/// Whatever becomes of a recording, it stays the same one: sampled, rejected, transcribed,
/// summarised, done, or put back after a failure. A sample waits with its report and without an
/// old error, a mode that was approved stays with it to the end, and a rejected one can be
/// sampled again.
pub proof fn a_recording_stays_the_same_through_its_run(
    meeting: ActiveMeeting,
    report: SampleReport,
    mode: Mode,
    error: String,
)
    ensures
        ({
            let waiting = as_awaiting(meeting, report);
            let running = as_transcribing(waiting, mode);
            let summed = as_summarising(running, mode);
            let done = as_done(summed, mode);
            let rejected = as_rejected(waiting);
            let kept = as_kept(running, error);
            &&& is_same_recording(waiting, meeting) && is_same_recording(done, meeting)
            &&& is_same_recording(rejected, meeting) && is_same_recording(kept, meeting)
            &&& waiting.phase == Phase::AwaitingApproval && waiting.sample == Some(report)
                && waiting.error is None
            &&& running.phase == Phase::Transcribing && running.approved_mode == Some(mode)
            &&& summed.phase == Phase::Summarising && summed.approved_mode == Some(mode)
            &&& done.phase == Phase::Done && done.approved_mode == Some(mode) && done.phase.finished()
            &&& rejected.phase == Phase::Recorded && rejected.sample is None
            &&& kept.phase == Phase::Recorded && kept.error == Some(error)
            &&& no_approval(Some((waiting.id@, waiting.phase))) is None
            &&& busy_reason(Some((kept.id@, kept.phase))) is Some
        }),
{
}

/// The sources that are recorded are named: the microphone where it is on, and the system where it
/// is on and could be opened.
pub proof fn the_sources_recorded_are_named(config: Config, system: Option<Seq<char>>)
    ensures
        ({
            let shown = source_lines(config, system);
            let mic = config.meeting_mic != Some(false);
            let sys = config.meeting_system != Some(false);
            &&& shown.len() == (if mic {
                1int
            } else {
                0
            }) + (if sys {
                1int
            } else {
                0
            })
            &&& mic && config.audio_device is Some ==> shown[0] == LineView::Field(
                "Microphone"@,
                config.audio_device->0@,
            )
            &&& sys && system is Some ==> shown.last() == LineView::Field(
                "System audio"@,
                system->0,
            )
            &&& sys && system is None ==> shown.last() is Warn
        }),
{
}

} // verus!
