//! Recorded audio, sample gate, full transcription, summary, deliverables.
//!
//! The sample gate is the reason this is a pipeline rather than one call. A transcript that reads
//! well can still corrupt names, numbers and commitments, and the difference between the
//! `transcribe` and `codemix` modes is exactly that kind of difference for
//! Gujarati/Hindi/English speech. So a short sample is transcribed both ways and the full
//! run waits for a human to pick.
//!
//! Nothing here decides on the user's behalf, and nothing reports a number it did not
//! measure.
use vstd::prelude::*;
use crate::config::{Config, DEFAULT_MEETING_MODEL, Provider, setting_or};
use crate::deliverables::{DIARIZED_FILE, Deliverable, METADATA_FILE, NOTE_FILE, PLAIN_FILE};
use crate::number::{decimal, to_decimal};
use crate::order::{sort_texts, sorted, sorting_keeps_members, without_repeats};
use crate::paths::{ends_in_wav, file_name, file_name_of, is_wav_name, name_stem, stem_of_name};
use crate::sarvam_batch::{
    BatchOptions, BatchResult, MAX_FILES_PER_JOB, MAX_FILE_SECONDS, Mode, merge,
};
use crate::state::{ActiveMeeting, Phase, SampleCandidate, SampleReport};
use crate::summary::Analysis;
use crate::text::{
    ascii_lower, copy_list, copy_opt, ends_with, eq_ignore_ascii_case, join, join_texts, opt_text,
    same, starts_with, texts, texts_of_push, trim, trimmed,
};
use crate::time::{NANOSECOND, SECOND, Time, clock, clock_text, from_nanos};
use crate::transcription::{
    Transcription, TranscriptionView, labelled_text, labels, last_end, overlaps, span,
    transcription_list,
};
use crate::wav::{
    Audio, TARGET_SAMPLE_RATE, WavError, WavInfo, WavPart, header_for, info, info_of, is_audio_of, is_split,
    pcm_error, slice, slice_error, sliced, split, split_error, split_pieces, wav_header,
    wav_samples,
};
use crate::window::{Window, has_audio, is_picked, pick_energy_window};

verus! {

broadcast use texts_of_push;

/// Length of the sample sent to the quality gate, in nanoseconds. Three minutes keep two
/// jobs cheap while still covering real conversation.
pub const SAMPLE_LENGTH: u64 = 180_000_000_000;

/// Skipped before looking for the sample window: openings are silence, joining noises and
/// "can you hear me".
pub const SAMPLE_SKIP: u64 = 30_000_000_000;

/// The longest part that one input file may be, in nanoseconds.
pub const MAX_FILE_LENGTH: u64 = 7_200_000_000_000;

/// The limits are those that the provider documents.
pub proof fn the_longest_part_is_the_documented_one()
    ensures
        MAX_FILE_LENGTH == MAX_FILE_SECONDS * 1_000_000_000,
{
}

/// The key that transcription is sent with.
pub fn sarvam_key(config: &Config) -> (r: Result<String, String>)
    ensures
        match r {
            Ok(key) => config.has_key(Provider::Sarvam) && config.key(Provider::Sarvam) == Some(
                key@,
            ),
            Err(e) => !config.has_key(Provider::Sarvam) && e@
                == "Meeting transcription needs a Sarvam API key. Run: nbmeet setup"@,
        },
{
    match config.usable_key(Provider::Sarvam) {
        Some(key) => Ok(key),
        None => Err("Meeting transcription needs a Sarvam API key. Run: nbmeet setup".to_owned()),
    }
}

/// The options of a job: the meeting model, never the dictation one, whose name may belong
/// to another provider. The mode is dropped when the model has none, and the language is
/// left to detection: guessing narrows the model for no reason on code-mixed speech.
pub fn options(config: &Config, mode: Option<Mode>) -> (r: BatchOptions)
    ensures
        r.model@ == setting_or(config.meeting_model, DEFAULT_MEETING_MODEL@),
        r.mode == (if config.meeting_has_modes() {
            mode
        } else {
            None
        }),
        r.language_code@ == "unknown"@,
        r.with_diarization,
        r.with_timestamps,
        r.num_speakers is None,
{
    BatchOptions {
        model: config.meeting_model_or_default().to_owned(),
        mode: if config.meeting_model_supports_mode() {
            mode
        } else {
            None
        },
        language_code: "unknown".to_owned(),
        with_diarization: true,
        with_timestamps: true,
        num_speakers: None,
    }
}

// ---------------------------------------------------------------------- the sample gate

/// Why the sample gate cannot run, in the order in which it is asked.
pub open spec fn gate_refusal(meeting: ActiveMeeting, config: Config) -> Option<Seq<char>> {
    if meeting.gate_blocked is Some {
        Some(meeting.gate_blocked->0@)
    } else if meeting.sample_file() is None {
        Some("This meeting has no audio a sample can be cut from."@)
    } else if !config.has_key(Provider::Sarvam) {
        Some("Meeting transcription needs a Sarvam API key. Run: nbmeet setup"@)
    } else {
        None
    }
}

/// The file the sample is cut from and the key it is sent with, or why the sample gate cannot run.
pub fn gate_source(meeting: &ActiveMeeting, config: &Config) -> (r: Result<
    (String, String),
    String,
>)
    ensures
        match r {
            Ok((path, key)) => {
                &&& gate_refusal(*meeting, *config) is None
                &&& meeting.sample_file() == Some(path@)
                &&& config.key(Provider::Sarvam) == Some(key@)
            },
            Err(e) => gate_refusal(*meeting, *config) == Some(e@),
        },
{
    if let Some(reason) = &meeting.gate_blocked {
        return Err(reason.clone());
    }
    let path = match meeting.sampleable() {
        Some(path) => path,
        None => {
            return Err("This meeting has no audio a sample can be cut from.".to_owned());
        },
    };
    match sarvam_key(config) {
        Ok(key) => Ok((path, key)),
        Err(e) => Err(e),
    }
}

/// A sample cut for the sample gate.
#[derive(Debug)]
pub struct Sample {
    pub window: Window,
    pub bytes: Vec<u8>,
    pub details: WavInfo,
}

/// Whether a window is the one to sample: the whole of a short recording, or else the
/// loudest window after the opening.
pub open spec fn is_sample_window(bytes: Seq<u8>, w: Window) -> bool {
    exists|audio: Audio|
        #[trigger] is_audio_of(audio, bytes) && has_audio(audio) && is_picked(
            audio,
            SAMPLE_LENGTH,
            SAMPLE_SKIP,
            w,
        )
}

/// Chooses the window and cuts it: the sample is a piece of the recording itself.
pub fn cut_sample(bytes: &[u8]) -> (r: Result<Sample, WavError>)
    ensures
        match r {
            Ok(s) => {
                let header = wav_header(bytes@)->0;
                let part = sliced(
                    header.sample_rate,
                    header.channels,
                    wav_samples(bytes@)->0,
                    s.window.start,
                    s.window.length,
                );
                &&& is_sample_window(bytes@, s.window)
                &&& slice_error(bytes@, s.window.start, s.window.length) is None
                &&& wav_samples(s.bytes@) == Some(part)
                &&& wav_header(s.bytes@) == Some(
                    header_for(header.sample_rate, header.channels, part.len()),
                )
                &&& s.details == info_of(wav_header(s.bytes@)->0)
            },
            Err(e) => match pcm_error(bytes@) {
                Some(error) => e == error,
                None => {
                    ||| e == WavError::NoAudio && (wav_header(bytes@)->0.sample_rate == 0
                        || wav_samples(bytes@)->0.len() == 0)
                    ||| exists|w: Window| #[trigger]
                        is_sample_window(bytes@, w) && slice_error(bytes@, w.start, w.length)
                            == Some(e)
                },
            },
        },
{
    let window = match pick_energy_window(bytes, SAMPLE_LENGTH, SAMPLE_SKIP) {
        Ok(window) => window,
        Err(e) => {
            return Err(e);
        },
    };
    assert(is_sample_window(bytes@, window));
    match slice(bytes, window.start, window.length) {
        Ok((cut, details)) => Ok(Sample { window, bytes: cut, details }),
        Err(e) => Err(e),
    }
}

/// The modes a sample is transcribed in: both, because for code-mixed speech that choice is
/// a real judgement call. A model without modes gets one run.
pub open spec fn gate_runs(has_modes: bool) -> Seq<Option<Mode>> {
    if has_modes {
        seq![Some(Mode::Transcribe), Some(Mode::Codemix)]
    } else {
        seq![None]
    }
}

pub fn gate_modes(config: &Config) -> (r: Vec<Option<Mode>>)
    ensures
        r@ == gate_runs(config.meeting_has_modes()),
{
    let mut modes: Vec<Option<Mode>> = Vec::new();
    if config.meeting_model_supports_mode() {
        modes.push(Some(Mode::Transcribe));
        modes.push(Some(Mode::Codemix));
    } else {
        modes.push(None);
    }
    assert(modes@ =~= gate_runs(config.meeting_has_modes()));
    modes
}

/// The mode a run is reported as. Without a mode it is `transcribe`: that is what the job
/// did, and the label has to name something.
pub open spec fn reported_mode(mode: Option<Mode>) -> Mode {
    match mode {
        Some(mode) => mode,
        None => Mode::Transcribe,
    }
}

/// What a sample run is reported as. A failed run keeps its error, and has measured nothing.
pub open spec fn is_candidate(
    c: SampleCandidate,
    mode: Option<Mode>,
    elapsed: Time,
    result: Result<BatchResult, String>,
    sample_length: Time,
) -> bool {
    &&& c.mode == reported_mode(mode)
    &&& c.elapsed == elapsed
    &&& c.sample_length == sample_length
    &&& match result {
        Ok(batch) => {
            let merged = merge(transcription_list(batch.outputs@));
            &&& c.text@ == labelled_text(merged)
            &&& c.segment_count == merged.segments.len()
            &&& c.speaker_labels == without_repeats(sorted(labels(merged.segments))).len()
            &&& c.overlapping_segments == overlaps(merged.segments)
            &&& opt_text(c.detected_language) == merged.language_code
            &&& match c.covered {
                Some(last) => last_end(merged.segments) == Some(last as int) && span(merged.segments)
                    is Some,
                None => span(merged.segments) is None,
            }
            &&& c.error is None
        },
        Err(e) => {
            &&& c.text@.len() == 0
            &&& c.segment_count == 0
            &&& c.speaker_labels == 0
            &&& c.overlapping_segments == 0
            &&& c.detected_language is None
            &&& c.covered is None
            &&& opt_text(c.error) == Some(e@)
        },
    }
}

pub fn candidate(
    mode: Option<Mode>,
    elapsed: Time,
    result: &Result<BatchResult, String>,
    sample_length: Time,
) -> (r: SampleCandidate)
    ensures
        is_candidate(r, mode, elapsed, *result, sample_length),
{
    let mode = match mode {
        Some(mode) => mode,
        None => Mode::Transcribe,
    };
    match result {
        Ok(batch) => {
            let merged = batch.merged();
            let labels = merged.speaker_labels();
            assert(texts(labels@).len() == labels.len());
            SampleCandidate {
                mode,
                text: merged.as_labelled_text(),
                elapsed,
                segment_count: merged.segments.len(),
                speaker_labels: labels.len(),
                overlapping_segments: merged.overlapping_segments(),
                detected_language: copy_opt(&merged.language_code),
                covered: match merged.coverage() {
                    Some((_, last)) => Some(last),
                    None => None,
                },
                sample_length,
                error: None,
            }
        },
        Err(e) => SampleCandidate {
            mode,
            text: String::new(),
            elapsed,
            segment_count: 0,
            speaker_labels: 0,
            overlapping_segments: 0,
            detected_language: None,
            covered: None,
            sample_length,
            error: Some(e.clone()),
        },
    }
}

/// The errors of the candidates that failed, each with its mode.
pub open spec fn candidate_errors(candidates: Seq<SampleCandidate>) -> Seq<Seq<char>>
    decreases candidates.len(),
{
    if candidates.len() == 0 {
        Seq::<Seq<char>>::empty()
    } else {
        let before = candidate_errors(candidates.drop_last());
        match candidates.last().error {
            Some(e) => before.push(candidates.last().mode.name() + ": "@ + e@),
            None => before,
        }
    }
}

pub open spec fn all_failed(candidates: Seq<SampleCandidate>) -> bool {
    candidate_errors(candidates).len() == candidates.len()
}

/// One mode failing does not lose the other: the sample gate fails only where no candidate has
/// words to look at.
pub proof fn one_failure_does_not_lose_the_other(candidates: Seq<SampleCandidate>, i: int)
    requires
        0 <= i < candidates.len(),
        candidates[i].error is None,
    ensures
        !all_failed(candidates),
    decreases candidates.len(),
{
    errors_are_no_more(candidates.drop_last());
    if i < candidates.len() - 1 {
        one_failure_does_not_lose_the_other(candidates.drop_last(), i);
    }
}

proof fn errors_are_no_more(candidates: Seq<SampleCandidate>)
    ensures
        candidate_errors(candidates).len() <= candidates.len(),
    decreases candidates.len(),
{
    if candidates.len() > 0 {
        errors_are_no_more(candidates.drop_last());
    }
}

/// The sample gate's findings, with the number that writes the loudness of the window, or the
/// errors where every run failed.
pub fn gate_report(window: &Window, rms: &str, candidates: Vec<SampleCandidate>) -> (r: Result<
    SampleReport,
    String,
>)
    ensures
        match r {
            Ok(report) => {
                &&& !all_failed(candidates@)
                &&& report.window_start == window.start * NANOSECOND
                &&& report.window_length == window.length * NANOSECOND
                &&& report.window_rms@ == rms@
                &&& report.candidates == candidates
            },
            Err(e) => all_failed(candidates@) && e@
                == "Both sample transcriptions failed. "@ + join(
                candidate_errors(candidates@),
                "; "@,
            ),
        },
{
    let mut errors: Vec<String> = Vec::new();
    let mut i: usize = 0;
    assert(texts(errors@) =~= Seq::<Seq<char>>::empty());
    while i < candidates.len()
        invariant
            i <= candidates.len(),
            errors.len() <= i,
            texts(errors@) == candidate_errors(candidates@.take(i as int)),
        decreases candidates.len() - i,
    {
        assert(candidates@.take(i + 1).drop_last() == candidates@.take(i as int));
        assert(candidates@.take(i + 1).last() == candidates@[i as int]);
        if let Some(e) = &candidates[i].error {
            errors.push(
                candidates[i].mode.as_str().to_owned().concat(": ").concat(e.as_str()),
            );
        }
        i = i + 1;
    }
    assert(candidates@.take(i as int) == candidates@);
    assert(texts(errors@).len() == errors.len());
    if errors.len() == candidates.len() {
        return Err(
            "Both sample transcriptions failed. ".to_owned().concat(
                join_texts(&errors, "; ").as_str(),
            ),
        );
    }
    Ok(
        SampleReport {
            window_start: from_nanos(window.start),
            window_length: from_nanos(window.length),
            window_rms: rms.to_owned(),
            candidates,
        },
    )
}

// ---------------------------------------------------------------------- full run

pub open spec fn too_many_parts(length: int, count: nat) -> Seq<char> {
    "This recording is "@ + clock_text(length) + " long, which needs "@ + decimal(count)
        + " parts — more than the 20 Sarvam accepts per job."@
}

/// What a recording is sent as: `None` for the file as it is, or the parts it is split into.
///
/// Splitting is sample-exact WAV work. An imported mp3 or m4a is submitted whole and the
/// provider enforces its own limit, better than a silent re-encode. Anything past 40 hours
/// cannot go through in one job, so that is said rather than submitting a doomed request.
pub fn prepare_inputs(path: &str, bytes: &[u8], target_os: &str) -> (r: Result<
    Option<Vec<WavPart>>,
    String,
>)
    ensures
        ({
            let name = match file_name(path@, target_os@) {
                Some(name) => name,
                None => Seq::<char>::empty(),
            };
            let stem = name_stem(name);
            match r {
                Ok(None) => !is_wav_name(name) || split_error(bytes@, MAX_FILE_LENGTH) is None
                    && is_split(bytes@, stem, MAX_FILE_LENGTH, None),
                Ok(Some(parts)) => is_wav_name(name) && parts@.len() <= MAX_FILES_PER_JOB
                    && split_error(bytes@, MAX_FILE_LENGTH) is None && is_split(
                    bytes@,
                    stem,
                    MAX_FILE_LENGTH,
                    Some(parts),
                ),
                Err(e) => is_wav_name(name) && match split_error(bytes@, MAX_FILE_LENGTH) {
                    Some(error) => e@ == error.text(path@),
                    None => {
                        let count = split_pieces(bytes@, MAX_FILE_LENGTH).len();
                        count > MAX_FILES_PER_JOB && e@ == too_many_parts(
                            info_of(wav_header(bytes@)->0).length(),
                            count,
                        )
                    },
                },
            }
        }),
{
    let name = match file_name_of(path, target_os) {
        Some(name) => name,
        None => String::new(),
    };
    if !ends_in_wav(name.as_str()) {
        return Ok(None);
    }
    let stem = stem_of_name(name.as_str());
    match split(bytes, stem.as_str(), MAX_FILE_LENGTH) {
        Ok(Some(parts)) => {
            if parts.len() > MAX_FILES_PER_JOB {
                let length: Time = match info(bytes) {
                    Some(details) => details.duration(),
                    None => 0,
                };
                return Err(
                    "This recording is ".to_owned().concat(clock(length).as_str()).concat(
                        " long, which needs ",
                    ).concat(to_decimal(parts.len() as u64).as_str()).concat(
                        " parts — more than the 20 Sarvam accepts per job.",
                    ),
                );
            }
            Ok(Some(parts))
        },
        Ok(None) => Ok(None),
        Err(e) => Err(e.message(path)),
    }
}

/// The audio and the key of a full run, or why there is none.
pub fn full_run_source(meeting: &ActiveMeeting, config: &Config) -> (r: Result<
    (String, String),
    String,
>)
    ensures
        match r {
            Ok((path, key)) => opt_text(meeting.audio_path) == Some(path@) && config.has_key(
                Provider::Sarvam,
            ) && config.key(Provider::Sarvam) == Some(key@),
            Err(e) => if meeting.audio_path is None {
                e@ == "This meeting has no recorded audio."@
            } else {
                !config.has_key(Provider::Sarvam) && e@
                    == "Meeting transcription needs a Sarvam API key. Run: nbmeet setup"@
            },
        },
{
    let path = match &meeting.audio_path {
        Some(path) => path.clone(),
        None => {
            return Err("This meeting has no recorded audio.".to_owned());
        },
    };
    match sarvam_key(config) {
        Ok(key) => Ok((path, key)),
        Err(e) => Err(e),
    }
}

/// What is said of a recording that goes as several parts.
pub fn parts_note(count: usize) -> (r: Option<String>)
    ensures
        opt_text(r) == (if count > 1 {
            Some(
                "Recording exceeds the 2 hour per-file limit, so it goes as "@ + decimal(
                    count as nat,
                ) + " parts in one job"@,
            )
        } else {
            None
        }),
{
    if count > 1 {
        Some(
            "Recording exceeds the 2 hour per-file limit, so it goes as ".to_owned().concat(
                to_decimal(count as u64).as_str(),
            ).concat(" parts in one job"),
        )
    } else {
        None
    }
}

/// What is said of inputs that a job could not process.
pub fn failed_inputs_note(batch: &BatchResult) -> (r: Option<String>)
    ensures
        opt_text(r) == (if batch.failed_inputs@.len() > 0 {
            Some(
                decimal(batch.failed_inputs@.len()) + " input(s) could not be transcribed: "@
                    + join(texts(batch.failed_inputs@), ", "@),
            )
        } else {
            None
        }),
{
    if batch.failed_inputs.len() == 0 {
        return None;
    }
    Some(
        to_decimal(batch.failed_inputs.len() as u64).concat(
            " input(s) could not be transcribed: ",
        ).concat(join_texts(&batch.failed_inputs, ", ").as_str()),
    )
}

/// The frames that a length comes to at the recorder's own rate, no more than a `u64` holds.
pub open spec fn frames_in(length: int) -> int {
    let frames = length * 16_000 / (SECOND as int);
    if length <= 0 {
        0
    } else if frames > u64::MAX {
        u64::MAX as int
    } else {
        frames
    }
}

/// How long one frame lasts at the recorder's own rate.
const FRAME: Time = 62_500_000_000_000;

/// What is known of the audio when no header can be read.
pub open spec fn assumed_details(duration: Option<Time>) -> WavInfo {
    WavInfo {
        sample_rate: TARGET_SAMPLE_RATE,
        channels: 1,
        bits_per_sample: 16,
        frames: frames_in(
            match duration {
                Some(length) => length as int,
                None => 0,
            },
        ) as u64,
    }
}

/// Header facts about the audio, for the deliverables: of the audio itself, of the WAV made
/// for the sample, or else what the meeting recorded.
///
/// An imported mp3 has no readable WAV header. Rather than failing a completed
/// transcription over metadata, unknown fields stay zero, which the coverage treats as
/// unknown rather than as a coverage failure.
pub fn audio_details(
    audio: Option<WavInfo>,
    sample_source: Option<WavInfo>,
    duration: Option<Time>,
) -> (r: WavInfo)
    ensures
        r == (match (audio, sample_source) {
            (Some(details), _) => details,
            (None, Some(details)) => details,
            (None, None) => assumed_details(duration),
        }),
{
    match (audio, sample_source) {
        (Some(details), _) => details,
        (None, Some(details)) => details,
        (None, None) => {
            let frames: u64 = match duration {
                Some(length) => if length <= 0 {
                    0
                } else if length / FRAME > u64::MAX as i128 {
                    u64::MAX
                } else {
                    (length / FRAME) as u64
                },
                None => 0,
            };
            WavInfo { sample_rate: TARGET_SAMPLE_RATE, channels: 1, bits_per_sample: 16, frames }
        },
    }
}

/// What the job itself reported, separate from the words it produced.
///
/// Kept apart so a meeting resumed after the job is long gone can still state the truth
/// about it rather than inventing zeroes.
#[derive(Debug, Clone)]
pub struct BatchFacts {
    pub job_id: String,
    pub elapsed: Time,
    pub partial: bool,
    pub failed_inputs: Vec<String>,
}

impl BatchFacts {
    pub fn of(batch: &BatchResult) -> (r: Self)
        ensures
            r.job_id@ == batch.job_id@,
            r.elapsed == batch.elapsed,
            r.partial == batch.partial,
            texts(r.failed_inputs@) == texts(batch.failed_inputs@),
    {
        BatchFacts {
            job_id: batch.job_id.clone(),
            elapsed: batch.elapsed,
            partial: batch.partial,
            failed_inputs: copy_list(&batch.failed_inputs),
        }
    }
}

/// Gathers what the deliverables need, so the transcript-only write and the full write
/// describe the same run rather than drifting apart.
pub fn describe<'a>(
    meeting: &'a ActiveMeeting,
    audio: WavInfo,
    transcription: &'a Transcription,
    analysis: Option<&'a Analysis>,
    mode: Mode,
    facts: &BatchFacts,
) -> (r: Deliverable<'a>)
    ensures
        r.meeting == meeting,
        r.audio == audio,
        r.transcription == transcription,
        r.analysis == analysis,
        r.mode == mode,
        r.batch_elapsed == facts.elapsed,
        r.job_id@ == facts.job_id@,
        r.partial == facts.partial,
        texts(r.failed_inputs@) == texts(facts.failed_inputs@),
{
    Deliverable {
        meeting,
        audio,
        transcription,
        analysis,
        mode,
        batch_elapsed: facts.elapsed,
        job_id: facts.job_id.clone(),
        partial: facts.partial,
        failed_inputs: copy_list(&facts.failed_inputs),
    }
}

/// A transcription that has been paid for, parked where a later run can pick it up.
#[derive(Debug, Clone)]
pub struct SavedTranscript {
    pub mode: Mode,
    pub transcription: Transcription,
    pub facts: BatchFacts,
}

/// Not a deliverable but a resume record. The name is meant to explain itself to someone
/// looking in the directory wondering why a meeting never finished.
pub const SAVED_TRANSCRIPT: &'static str = "resume-transcript.json";

/// Whether a saved transcription has anything to finish from. An empty record would deliver
/// empty notes, which is worse than paying to transcribe again.
pub open spec fn has_words(t: TranscriptionView) -> bool {
    trimmed(t.text).len() > 0 || t.segments.len() > 0
}

/// The saved transcription, where it has words. One that could not be read counts as
/// absent: the audio is still there.
pub fn saved_transcript(saved: Option<SavedTranscript>) -> (r: Option<SavedTranscript>)
    ensures
        r == (if saved is Some && has_words(saved->0.transcription@) {
            saved
        } else {
            None
        }),
{
    match saved {
        Some(saved) => if trim(saved.transcription.text.as_str()).as_str().is_empty()
            && saved.transcription.segments.len() == 0 {
            None
        } else {
            Some(saved)
        },
        None => None,
    }
}

/// What finishing from a saved transcription is reported as.
pub fn reuse_note(job_id: &str) -> (r: String)
    ensures
        r@ == "Reusing the transcript from job "@ + job_id@ + " — nothing is uploaded again"@,
{
    "Reusing the transcript from job ".to_owned().concat(job_id).concat(
        " — nothing is uploaded again",
    )
}

// ----------------------------------------------------------------------- delivery

/// What is done with a transcription once its words are there.
#[derive(Debug, Clone, Copy, PartialEq, Eq, Structural)]
pub enum DeliveryStep {
    /// Writes the files that do not depend on the summary.
    WriteTranscript,
    /// Parks the transcription where a later run can finish from it.
    SaveTranscript,
    /// Moves the meeting on to summarising.
    MarkSummarising,
    /// Asks for the summary. A failure leaves an honest gap.
    Summarise,
    /// Writes all four files.
    WriteAll,
    /// Removes what the deliverables supersede.
    CleanIntermediates,
    /// Moves the state beside the deliverables.
    Archive,
}

/// The steps from the words coming back to the meeting being done. Those that were saved by
/// an earlier run are not saved again, and without a key no summary is asked for.
pub open spec fn delivery(reused: bool, can_summarise: bool) -> Seq<DeliveryStep> {
    seq![DeliveryStep::WriteTranscript] + (if reused {
        Seq::<DeliveryStep>::empty()
    } else {
        seq![DeliveryStep::SaveTranscript]
    }) + seq![DeliveryStep::MarkSummarising] + (if can_summarise {
        seq![DeliveryStep::Summarise]
    } else {
        Seq::<DeliveryStep>::empty()
    }) + seq![
        DeliveryStep::WriteAll,
        DeliveryStep::CleanIntermediates,
        DeliveryStep::Archive,
    ]
}

pub fn delivery_plan(reused: bool, can_summarise: bool) -> (r: Vec<DeliveryStep>)
    ensures
        r@ == delivery(reused, can_summarise),
{
    let mut steps: Vec<DeliveryStep> = Vec::new();
    steps.push(DeliveryStep::WriteTranscript);
    if !reused {
        steps.push(DeliveryStep::SaveTranscript);
    }
    steps.push(DeliveryStep::MarkSummarising);
    if can_summarise {
        steps.push(DeliveryStep::Summarise);
    }
    steps.push(DeliveryStep::WriteAll);
    steps.push(DeliveryStep::CleanIntermediates);
    steps.push(DeliveryStep::Archive);
    assert(steps@ =~= delivery(reused, can_summarise));
    steps
}

/// The words are on disk before anything that can be interrupted: the transcript is written
/// first of all, it is saved before a summary is asked for unless an earlier run saved it,
/// and what can still be finished from is removed only once the deliverables are written.
pub proof fn words_reach_the_disk_first(reused: bool, can_summarise: bool, i: int)
    requires
        0 <= i < delivery(reused, can_summarise).len(),
    ensures
        ({
            let steps = delivery(reused, can_summarise);
            &&& steps[0] == DeliveryStep::WriteTranscript
            &&& !reused ==> steps[1] == DeliveryStep::SaveTranscript
            &&& steps[i] == DeliveryStep::Summarise ==> i > (if reused {
                0int
            } else {
                1int
            })
            &&& steps[i] == DeliveryStep::CleanIntermediates ==> steps[i - 1]
                == DeliveryStep::WriteAll
            &&& steps.last() == DeliveryStep::Archive
        }),
{
}

/// Whether a file of a meeting is derived, and superseded by the deliverables.
pub open spec fn is_derived(name: Seq<char>) -> bool {
    ||| name == "sample.wav"@
    ||| name == "sample-source.wav"@
    ||| name == SAVED_TRANSCRIPT@
    ||| "audio-part"@.is_prefix_of(name) && ".wav"@.is_suffix_of(name)
}

/// Whether a file is removed once a meeting is delivered: the sample, the split parts and
/// the resume record. The recording stays as the source of truth.
pub fn is_intermediate(name: &str) -> (r: bool)
    ensures
        r == is_derived(name@),
{
    same(name, "sample.wav") || same(name, "sample-source.wav") || same(name, SAVED_TRANSCRIPT) || (
    starts_with(name, "audio-part") && ends_with(name, ".wav"))
}

/// Cleaning up removes neither the recording nor a deliverable.
pub proof fn cleaning_keeps_what_matters()
    ensures
        !is_derived("audio.wav"@),
        !is_derived(NOTE_FILE@),
        !is_derived(DIARIZED_FILE@),
        !is_derived(PLAIN_FILE@),
        !is_derived(METADATA_FILE@),
{
    reveal_strlit("audio.wav");
    reveal_strlit("meeting-note.md");
    reveal_strlit("full-diarized-transcript.md");
    reveal_strlit("full-transcript.txt");
    reveal_strlit("processing-metadata.json");
    reveal_strlit("sample.wav");
    reveal_strlit("sample-source.wav");
    reveal_strlit("resume-transcript.json");
    reveal_strlit("audio-part");
    assert("audio.wav"@[0] != "sample.wav"@[0]);
    assert("audio.wav"@[0] != "sample-source.wav"@[0]);
    assert("audio.wav"@[0] != SAVED_TRANSCRIPT@[0]);
    assert("audio.wav"@.len() < "audio-part"@.len());
    assert(NOTE_FILE@[0] == 'm' && DIARIZED_FILE@[0] == 'f' && PLAIN_FILE@[0] == 'f'
        && METADATA_FILE@[0] == 'p');
    assert("sample.wav"@[0] == 's' && "sample-source.wav"@[0] == 's' && SAVED_TRANSCRIPT@[0] == 'r'
        && "audio-part"@[0] == 'a');
}

/// Whether a file is the audio of a meeting, whatever extension it landed with.
pub open spec fn is_audio_name(name: Seq<char>) -> bool {
    ascii_lower(name_stem(name)) == "audio"@
}

/// The first of the names that is the audio.
pub open spec fn audio_among(names: Seq<Seq<char>>) -> Option<Seq<char>>
    decreases names.len(),
{
    if names.len() == 0 {
        None
    } else {
        match audio_among(names.drop_last()) {
            Some(name) => Some(name),
            None => if is_audio_name(names.last()) {
                Some(names.last())
            } else {
                None
            },
        }
    }
}

fn names_audio(name: &str) -> (r: bool)
    ensures
        r == is_audio_name(name@),
{
    proof {
        reveal_strlit("audio");
        assert(ascii_lower("audio"@) =~= "audio"@);
    }
    eq_ignore_ascii_case(stem_of_name(name).as_str(), "audio")
}

/// The audio file in a meeting directory, given the names in it. Recordings are always
/// `audio.wav`, but an import keeps its own container.
pub fn recorded_audio(names: &Vec<String>) -> (r: Option<String>)
    ensures
        opt_text(r) == audio_among(texts(names@)),
{
    let ghost all = texts(names@);
    let mut found: Option<String> = None;
    let mut i: usize = 0;
    while i < names.len()
        invariant
            i <= names.len(),
            all == texts(names@),
            opt_text(found) == audio_among(all.take(i as int)),
        decreases names.len() - i,
    {
        assert(all.take(i + 1).drop_last() == all.take(i as int));
        assert(all.take(i + 1).last() == names@[i as int]@);
        if found.is_none() && names_audio(names[i].as_str()) {
            found = Some(names[i].clone());
        }
        i = i + 1;
    }
    assert(all.take(i as int) == all);
    found
}

/// What is found of a meeting on disk.
#[derive(Debug)]
pub struct MeetingEntry {
    pub id: String,
    pub has_audio: bool,
    pub has_note: bool,
}

/// The meeting that is being worked on: it has audio on disk and no note yet, which looks
/// identical to an abandoned one.
pub open spec fn in_flight(active: Option<(Seq<char>, Phase)>) -> Option<Seq<char>> {
    match active {
        Some((id, phase)) => if !phase.finished() && phase != Phase::Recorded {
            Some(id)
        } else {
            None
        },
        None => None,
    }
}

/// The meetings that were recorded but never finished.
pub open spec fn unfinished(entries: Seq<MeetingEntry>, busy: Option<Seq<char>>) -> Seq<Seq<char>>
    decreases entries.len(),
{
    if entries.len() == 0 {
        Seq::<Seq<char>>::empty()
    } else {
        let before = unfinished(entries.drop_last(), busy);
        let e = entries.last();
        if e.has_audio && !e.has_note && Some(e.id@) != busy {
            before.push(e.id@)
        } else {
            before
        }
    }
}

pub open spec fn active_view(active: Option<&ActiveMeeting>) -> Option<(Seq<char>, Phase)> {
    match active {
        Some(m) => Some((m.id@, m.phase)),
        None => None,
    }
}

/// Meetings that were recorded but never finished, newest first.
///
/// A crash between recording and transcription must never orphan an hour of audio.
pub fn resumable(entries: &Vec<MeetingEntry>, active: Option<&ActiveMeeting>) -> (r: Vec<String>)
    ensures
        texts(r@) == sorted(unfinished(entries@, in_flight(active_view(active)))).reverse(),
{
    let ghost busy = in_flight(active_view(active));
    let busy_id: Option<&str> = match active {
        Some(m) => if !m.phase.is_finished() && m.phase != Phase::Recorded {
            Some(m.id.as_str())
        } else {
            None
        },
        None => None,
    };
    let mut found: Vec<String> = Vec::new();
    let mut i: usize = 0;
    assert(texts(found@) =~= Seq::<Seq<char>>::empty());
    while i < entries.len()
        invariant
            i <= entries.len(),
            busy == (match busy_id {
                Some(id) => Some(id@),
                None => None,
            }),
            texts(found@) == unfinished(entries@.take(i as int), busy),
        decreases entries.len() - i,
    {
        assert(entries@.take(i + 1).drop_last() == entries@.take(i as int));
        assert(entries@.take(i + 1).last() == entries@[i as int]);
        let e = &entries[i];
        let is_busy = match busy_id {
            Some(id) => same(id, e.id.as_str()),
            None => false,
        };
        if e.has_audio && !e.has_note && !is_busy {
            found.push(e.id.clone());
        }
        i = i + 1;
    }
    assert(entries@.take(i as int) == entries@);
    let ordered = sort_texts(&found);
    let mut newest: Vec<String> = Vec::new();
    let ghost all = texts(ordered@);
    let mut left: usize = ordered.len();
    assert(texts(newest@) =~= all.reverse().take(0));
    while left > 0
        invariant
            left <= ordered.len(),
            all == texts(ordered@),
            texts(newest@) == all.reverse().take(ordered.len() - left),
        decreases left,
    {
        let ghost k = ordered.len() - left;
        newest.push(ordered[left - 1].clone());
        assert(all.reverse()[k] == ordered@[left - 1]@);
        assert(all.reverse().take(k + 1) =~= all.reverse().take(k).push(all.reverse()[k]));
        left = left - 1;
    }
    assert(all.reverse().take(all.len() as int) =~= all.reverse());
    newest
}

/// A meeting that is still recording or being processed is never reported as orphaned.
pub proof fn a_meeting_in_flight_is_not_orphaned(
    entries: Seq<MeetingEntry>,
    id: Seq<char>,
    phase: Phase,
    i: int,
)
    requires
        phase.capturing() || phase.processing() || phase == Phase::AwaitingApproval,
        0 <= i < unfinished(entries, in_flight(Some((id, phase)))).len(),
    ensures
        unfinished(entries, in_flight(Some((id, phase))))[i] != id,
    decreases entries.len(),
{
    let busy = in_flight(Some((id, phase)));
    let before = unfinished(entries.drop_last(), busy);
    if i < before.len() {
        a_meeting_in_flight_is_not_orphaned(entries.drop_last(), id, phase, i);
        assert(unfinished(entries, busy)[i] == before[i]);
    }
}

// ----------------------------------------------------------- what a run comes to

/// A sample is taken exactly where nothing blocks it, there is audio to cut it from, and there is
/// a key to transcribe it with.
pub proof fn a_sample_needs_audio_and_a_key(meeting: ActiveMeeting, config: Config)
    ensures
        gate_refusal(meeting, config) is None <==> meeting.gate_blocked is None && (
        meeting.sample_source is Some || meeting.audio_path is Some) && config.has_key(
            Provider::Sarvam,
        ),
        meeting.gate_blocked is Some ==> gate_refusal(meeting, config) == Some(
            meeting.gate_blocked->0@,
        ),
{
}

/// Every mode there is is tried on the sample, each once.
pub proof fn every_mode_is_tried(mode: Mode)
    ensures
        gate_runs(true).contains(Some(mode)),
        gate_runs(true).no_duplicates(),
        forall|i: int| 0 <= i < gate_runs(true).len() ==> #[trigger] gate_runs(true)[i] is Some,
        gate_runs(false).len() == 1 && gate_runs(false)[0] is None,
{
    assert(gate_runs(true)[0] == Some(Mode::Transcribe));
    assert(gate_runs(true)[1] == Some(Mode::Codemix));
}

/// A sample failed as a whole exactly where every run of it failed.
pub proof fn a_sample_fails_with_its_last_run(candidates: Seq<SampleCandidate>)
    ensures
        all_failed(candidates) <==> forall|i: int|
            0 <= i < candidates.len() ==> (#[trigger] candidates[i]).error is Some,
    decreases candidates.len(),
{
    if candidates.len() > 0 {
        let front = candidates.drop_last();
        a_sample_fails_with_its_last_run(front);
        errors_are_no_more(front);
        assert(candidates[candidates.len() - 1] == candidates.last());
        if forall|i: int| 0 <= i < candidates.len() ==> (#[trigger] candidates[i]).error is Some {
            assert forall|i: int| 0 <= i < front.len() implies (#[trigger] front[i]).error
                is Some by {
                assert(front[i] == candidates[i]);
            }
        }
        if all_failed(candidates) {
            assert forall|i: int| 0 <= i < candidates.len() implies (
            #[trigger] candidates[i]).error is Some by {
                if i < front.len() {
                    assert(front[i] == candidates[i]);
                }
            }
        }
    }
}

proof fn candidate_errors_of_both(a: Seq<SampleCandidate>, b: Seq<SampleCandidate>)
    ensures
        candidate_errors(a + b) == candidate_errors(a) + candidate_errors(b),
    decreases b.len(),
{
    if b.len() == 0 {
        assert(a + b == a);
        assert(candidate_errors(a) + candidate_errors(b) == candidate_errors(a));
    } else {
        assert((a + b).drop_last() == a + b.drop_last());
        assert((a + b).last() == b.last());
        candidate_errors_of_both(a, b.drop_last());
    }
}

/// Each run that failed is reported once, in its place, with its mode and its own error.
pub proof fn each_failed_run_is_reported(candidates: Seq<SampleCandidate>, i: int)
    requires
        0 <= i < candidates.len(),
    ensures
        candidate_errors(candidates) == candidate_errors(candidates.take(i)) + (
        match candidates[i].error {
            Some(e) => seq![candidates[i].mode.name() + ": "@ + e@],
            None => Seq::<Seq<char>>::empty(),
        }) + candidate_errors(candidates.skip(i + 1)),
{
    reveal_with_fuel(candidate_errors, 2);
    let one = seq![candidates[i]];
    assert(candidates == candidates.take(i) + one + candidates.skip(i + 1));
    candidate_errors_of_both(candidates.take(i) + one, candidates.skip(i + 1));
    candidate_errors_of_both(candidates.take(i), one);
    assert(one.drop_last() == Seq::<SampleCandidate>::empty());
    assert(one.last() == candidates[i]);
    assert(candidate_errors(one) =~= (match candidates[i].error {
        Some(e) => seq![candidates[i].mode.name() + ": "@ + e@],
        None => Seq::<Seq<char>>::empty(),
    }));
}

/// A summary is asked for exactly where one can be had. All files are written once and the
/// meeting is put away last, whatever came before.
pub proof fn a_delivery_is_complete(reused: bool, can_summarise: bool)
    ensures
        ({
            let steps = delivery(reused, can_summarise);
            &&& steps.contains(DeliveryStep::Summarise) <==> can_summarise
            &&& steps.contains(DeliveryStep::SaveTranscript) <==> !reused
            &&& steps.contains(DeliveryStep::MarkSummarising)
            &&& steps.no_duplicates()
            &&& steps[steps.len() - 3] == DeliveryStep::WriteAll
            &&& steps[steps.len() - 2] == DeliveryStep::CleanIntermediates
            &&& steps[steps.len() - 1] == DeliveryStep::Archive
        }),
{
    let steps = delivery(reused, can_summarise);
    let saved = if reused {
        1int
    } else {
        2int
    };
    assert(steps[saved] == DeliveryStep::MarkSummarising);
    if can_summarise {
        assert(steps[saved + 1] == DeliveryStep::Summarise);
    }
    if !reused {
        assert(steps[1] == DeliveryStep::SaveTranscript);
    }
}

/// The audio of a meeting is the first file that is named so.
pub proof fn the_first_audio_is_taken(names: Seq<Seq<char>>, i: int)
    requires
        0 <= i < names.len(),
        ascii_lower(name_stem(names[i])) == "audio"@,
        forall|k: int|
            0 <= k < i ==> ascii_lower(name_stem(#[trigger] names[k])) != "audio"@,
    ensures
        audio_among(names) == Some(names[i]),
    decreases names.len(),
{
    let front = names.drop_last();
    if i < front.len() {
        assert(front[i] == names[i]);
        the_first_audio_is_taken(front, i);
    } else {
        no_audio_is_made_up(front);
    }
}

/// Where no file is named so, there is no audio.
pub proof fn no_audio_is_made_up(names: Seq<Seq<char>>)
    requires
        forall|k: int|
            0 <= k < names.len() ==> ascii_lower(name_stem(#[trigger] names[k])) != "audio"@,
    ensures
        audio_among(names) is None,
    decreases names.len(),
{
    if names.len() > 0 {
        assert(ascii_lower(name_stem(names[names.len() - 1])) != "audio"@);
        no_audio_is_made_up(names.drop_last());
    }
}

/// The meetings left unfinished are those with audio and without a note, but for the one that is
/// being worked on, in their order.
pub proof fn unfinished_meetings_have_audio_and_no_note(
    entries: Seq<MeetingEntry>,
    busy: Option<Seq<char>>,
)
    ensures
        unfinished(entries, busy) == entries.filter(
            |e: MeetingEntry| e.has_audio && !e.has_note && Some(e.id@) != busy,
        ).map_values(|e: MeetingEntry| e.id@),
    decreases entries.len(),
{
    reveal(Seq::filter);
    let p = |e: MeetingEntry| e.has_audio && !e.has_note && Some(e.id@) != busy;
    let f = |e: MeetingEntry| e.id@;
    if entries.len() > 0 {
        let front = entries.drop_last();
        unfinished_meetings_have_audio_and_no_note(front, busy);
        if p(entries.last()) {
            assert(front.filter(p).push(entries.last()).map_values(f) =~= front.filter(
                p,
            ).map_values(f).push(f(entries.last())));
        }
    } else {
        assert(entries.filter(p).map_values(f) =~= Seq::<Seq<char>>::empty());
    }
}

/// A meeting is in flight from its start until it is recorded, and again until it is finished.
pub proof fn a_meeting_is_in_flight_while_it_is_worked_on(id: Seq<char>, phase: Phase)
    ensures
        in_flight(Some((id, phase))) == (if phase == Phase::Done || phase == Phase::Failed || phase
            == Phase::Recorded {
            None
        } else {
            Some(id)
        }),
        in_flight(None) is None,
{
}

/// The frames assumed for audio of a known length last that long, in whole frames.
pub proof fn assumed_frames_last_as_long(length: Time)
    requires
        0 <= length,
        length * 16_000 / (SECOND as int) <= u64::MAX,
    ensures
        0 <= length * 16_000 - assumed_details(Some(length)).frames * SECOND < SECOND,
        assumed_details(Some(length)).sample_rate == 16_000,
        assumed_details(None).frames == 0,
{
    vstd::arithmetic::div_mod::lemma_fundamental_div_mod(length * 16_000, SECOND as int);
}

/// Only what was derived is cleaned away: the sample, its source, the parts of the audio and the
/// transcript that was parked.
pub proof fn only_what_was_derived_is_cleaned(name: Seq<char>)
    requires
        is_derived(name),
    ensures
        name == "sample.wav"@ || name == "sample-source.wav"@ || name == "resume-transcript.json"@
            || "audio-part"@.is_prefix_of(name),
{
}

/// A transcript has words where its text says something or it has a segment.
pub proof fn words_are_text_or_segments(t: TranscriptionView)
    ensures
        t.segments.len() > 0 ==> has_words(t),
        trimmed(t.text).len() > 0 ==> has_words(t),
        has_words(t) ==> t.segments.len() > 0 || trimmed(t.text).len() > 0,
{
}

/// A candidate shows what its run gave: its text and its counts where it worked, and nothing but
/// its error where it failed.
pub proof fn a_candidate_shows_what_its_run_gave(
    c: SampleCandidate,
    mode: Option<Mode>,
    elapsed: Time,
    result: Result<BatchResult, String>,
    sample_length: Time,
)
    requires
        is_candidate(c, mode, elapsed, result, sample_length),
    ensures
        c.error is None <==> result is Ok,
        result is Err ==> c.error->0@ == result->Err_0@ && c.text@.len() == 0 && c.segment_count
            == 0,
        mode is Some ==> c.mode == mode->0,
        c.elapsed == elapsed && c.sample_length == sample_length,
        result is Ok ==> ({
            let merged = merge(transcription_list(result->Ok_0.outputs@));
            &&& c.text@ == labelled_text(merged)
            &&& c.segment_count == merged.segments.len()
            &&& opt_text(c.detected_language) == merged.language_code
            &&& c.speaker_labels <= labels(merged.segments).len()
        }),
{
    if result is Ok {
        let merged = merge(transcription_list(result->Ok_0.outputs@));
        let all = labels(merged.segments);
        sorting_keeps_members(all);
        repeats_only_go(sorted(all));
    }
}

proof fn repeats_only_go(parts: Seq<Seq<char>>)
    ensures
        without_repeats(parts).len() <= parts.len(),
    decreases parts.len(),
{
    if parts.len() >= 2 {
        repeats_only_go(parts.drop_last());
    }
}

} // verus!
