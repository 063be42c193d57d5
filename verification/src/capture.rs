//! Meeting capture: the microphone and the system output, brought to one pace.
//!
//! The other participants of a meeting are not in the room, they are coming out of the
//! speakers, and recording only the microphone produces a transcript of half a
//! conversation. Two devices have two independent clocks, which drift measurably over a
//! long meeting. So **one source is the clock**: it drives the write loop, and the other is
//! padded with silence when it falls short and trimmed when it runs ahead.
use std::collections::VecDeque;
use vstd::prelude::*;
use crate::audio::Levels;
use crate::number::{decimal, to_decimal};
use crate::text::{
    contains, copy_opt, has, join, join_texts, lacks, lowercase_of, opt_text, texts, texts_of_push,
    to_lowercase,
};
use crate::wav::TARGET_SAMPLE_RATE;

verus! {

broadcast use texts_of_push;

/// How often the WAV header is rewritten so a killed recorder leaves a usable file, in
/// microseconds.
pub const CHECKPOINT: u64 = 5_000_000;

/// Drift guard: a source that is not the clock never banks more samples than this, two
/// seconds at the rate of the mix.
pub const MAX_BACKLOG: usize = 32_000;

/// Which inputs a meeting should record.
#[derive(Debug, Clone)]
pub struct CaptureOptions {
    pub mic: bool,
    pub system: bool,
    /// Microphone name, or `None` for the system default.
    pub device: Option<String>,
    /// Also keep an unmixed WAV per source, for working out which side went wrong.
    pub keep_tracks: bool,
}

impl Default for CaptureOptions {
    fn default() -> (r: Self)
        ensures
            r.mic,
            r.system,
            r.device is None,
            !r.keep_tracks,
    {
        CaptureOptions { mic: true, system: true, device: None, keep_tracks: false }
    }
}

#[derive(Debug, Clone, Copy, PartialEq, Eq, Structural)]
pub enum SourceKind {
    Mic,
    System,
}

impl SourceKind {
    pub open spec fn name(self) -> Seq<char> {
        match self {
            SourceKind::Mic => "microphone"@,
            SourceKind::System => "system audio"@,
        }
    }

    pub open spec fn track(self) -> Seq<char> {
        match self {
            SourceKind::Mic => "track-mic.wav"@,
            SourceKind::System => "track-system.wav"@,
        }
    }

    pub fn label(&self) -> (r: &'static str)
        ensures
            r@ == self.name(),
    {
        match self {
            SourceKind::Mic => "microphone",
            SourceKind::System => "system audio",
        }
    }

    /// The file that a source is kept in, unmixed.
    pub fn track_name(&self) -> (r: &'static str)
        ensures
            r@ == self.track(),
    {
        match self {
            SourceKind::Mic => "track-mic.wav",
            SourceKind::System => "track-system.wav",
        }
    }
}

// ------------------------------------------------------------------------- opening

/// What opening a source came to: not asked for, open, or an error.
#[derive(Debug)]
pub enum Opening {
    Skipped,
    Opened,
    Refused(String),
}

/// The sources to record, in order, and what is to be said of those that did not open.
#[derive(Debug)]
pub struct Sources {
    pub open: Vec<SourceKind>,
    pub problems: Vec<String>,
}

pub open spec fn opened_kinds(mic: Opening, system: Opening) -> Seq<SourceKind> {
    (if mic is Opened {
        seq![SourceKind::Mic]
    } else {
        Seq::<SourceKind>::empty()
    }) + (if system is Opened {
        seq![SourceKind::System]
    } else {
        Seq::<SourceKind>::empty()
    })
}

pub open spec fn problem(kind: SourceKind, opening: Opening) -> Seq<Seq<char>> {
    match opening {
        Opening::Refused(e) => seq![kind.name() + ": "@ + e@],
        _ => Seq::<Seq<char>>::empty(),
    }
}

pub open spec fn opening_problems(mic: Opening, system: Opening) -> Seq<Seq<char>> {
    problem(SourceKind::Mic, mic) + problem(SourceKind::System, system)
}

/// Whether anything is asked for at all.
pub fn check_options(options: &CaptureOptions) -> (r: Result<(), String>)
    ensures
        r is Ok <==> options.mic || options.system,
        r is Err ==> r->Err_0@
            == "Both the microphone and system audio are disabled, so there is nothing to record."@,
{
    if !options.mic && !options.system {
        return Err(
            "Both the microphone and system audio are disabled, so there is nothing to record.".to_owned(),
        );
    }
    Ok(())
}

/// What is recorded, given what opened.
///
/// One working source still records a useful meeting, so a single failure is a warning
/// rather than a dead stop. But it must be said out loud, because a half-recorded meeting is
/// only discovered when the transcript is missing everyone else.
pub fn opened_sources(mic: &Opening, system: &Opening) -> (r: Result<Sources, String>)
    ensures
        match r {
            Ok(sources) => {
                &&& sources.open@ == opened_kinds(*mic, *system)
                &&& sources.open@.len() > 0
                &&& texts(sources.problems@) == opening_problems(*mic, *system)
            },
            Err(e) => opened_kinds(*mic, *system).len() == 0 && e@
                == "No audio source could be opened. "@ + join(
                opening_problems(*mic, *system),
                "; "@,
            ),
        },
{
    let mut open: Vec<SourceKind> = Vec::new();
    let mut problems: Vec<String> = Vec::new();
    assert(texts(problems@) =~= Seq::<Seq<char>>::empty());
    match mic {
        Opening::Opened => {
            open.push(SourceKind::Mic);
        },
        Opening::Refused(e) => {
            problems.push("microphone".to_owned().concat(": ").concat(e.as_str()));
        },
        Opening::Skipped => {},
    }
    assert(texts(problems@) =~= problem(SourceKind::Mic, *mic));
    match system {
        Opening::Opened => {
            open.push(SourceKind::System);
        },
        Opening::Refused(e) => {
            problems.push("system audio".to_owned().concat(": ").concat(e.as_str()));
        },
        Opening::Skipped => {},
    }
    assert(texts(problems@) =~= opening_problems(*mic, *system));
    assert(open@ =~= opened_kinds(*mic, *system));
    if open.len() == 0 {
        return Err(
            "No audio source could be opened. ".to_owned().concat(
                join_texts(&problems, "; ").as_str(),
            ),
        );
    }
    Ok(Sources { open, problems })
}

/// What is logged of a source that did not open.
pub fn capture_warning(problem: &str) -> (r: String)
    ensures
        r@ == "Meeting capture warning — "@ + problem@,
{
    "Meeting capture warning — ".to_owned().concat(problem)
}

/// The files that sources are kept in, unmixed. None unless they are asked for.
pub fn track_files(options: &CaptureOptions, open: &Vec<SourceKind>) -> (r: Vec<
    (SourceKind, String),
>)
    ensures
        r@.len() == (if options.keep_tracks {
            open@.len()
        } else {
            0
        }),
        forall|i: int|
            0 <= i < r@.len() ==> (#[trigger] r@[i]).0 == open@[i] && r@[i].1@ == open@[i].track(),
{
    let mut tracks: Vec<(SourceKind, String)> = Vec::new();
    if !options.keep_tracks {
        return tracks;
    }
    let mut i: usize = 0;
    while i < open.len()
        invariant
            i <= open.len(),
            tracks@.len() == i,
            forall|j: int|
                0 <= j < i ==> (#[trigger] tracks@[j]).0 == open@[j] && tracks@[j].1@
                    == open@[j].track(),
        decreases open.len() - i,
    {
        tracks.push((open[i], open[i].track_name().to_owned()));
        i = i + 1;
    }
    tracks
}

// ------------------------------------------------------------------------- mixing

/// `n` samples of silence.
pub open spec fn silent<T>(silence: T, n: nat) -> Seq<T> {
    Seq::new(n, |i: int| silence)
}

/// What is taken of a buffer: `wanted` samples, made up with silence. The largest number of
/// all means everything there is.
pub open spec fn taken<T>(buffer: Seq<T>, wanted: usize, silence: T) -> Seq<T> {
    if wanted == usize::MAX {
        buffer
    } else if buffer.len() >= wanted {
        buffer.take(wanted as int)
    } else {
        buffer + silent(silence, (wanted - buffer.len()) as nat)
    }
}

/// What stays in a buffer that `wanted` samples were taken of.
pub open spec fn left_over<T>(buffer: Seq<T>, wanted: usize) -> Seq<T> {
    if buffer.len() >= wanted {
        buffer.skip(wanted as int)
    } else {
        Seq::<T>::empty()
    }
}

/// Takes `wanted` samples, or all there are.
///
/// A source that fell short is padded with silence rather than shortening the mix, which
/// would shift every later timestamp.
pub fn take_available<T: Copy>(
    buffer: &mut VecDeque<T>,
    wanted: usize,
    silence: T,
    out: &mut Vec<T>,
)
    ensures
        final(out)@ == taken(old(buffer)@, wanted, silence),
        final(buffer)@ == left_over(old(buffer)@, wanted),
{
    let ghost all = buffer@;
    let available = buffer.len();
    assert(all.len() == available);
    out.clear();
    assert(all.take(0) =~= Seq::<T>::empty());
    assert(all.skip(0) =~= all);
    while out.len() < wanted && buffer.len() > 0
        invariant
            out@.len() <= all.len(),
            out@.len() <= wanted,
            out@ == all.take(out@.len() as int),
            buffer@ == all.skip(out@.len() as int),
        decreases buffer@.len(),
    {
        let ghost n = out@.len() as int;
        if let Some(sample) = buffer.pop_front() {
            out.push(sample);
            assert(all.take(n + 1) =~= all.take(n).push(all[n]));
            assert(all.skip(n + 1) =~= all.skip(n).subrange(1, all.skip(n).len() as int));
        }
    }
    let ghost n = out@.len() as int;
    assert(n == wanted || n == all.len());
    if wanted != usize::MAX {
        while out.len() < wanted
            invariant
                n <= out@.len() <= wanted,
                n == wanted || n == all.len(),
                n <= all.len(),
                out@ == all.take(n) + silent(silence, (out@.len() - n) as nat),
            decreases wanted - out.len(),
        {
            let ghost before = (out@.len() - n) as nat;
            out.push(silence);
            assert(silent(silence, before + 1) =~= silent(silence, before).push(silence));
            assert(out@ =~= all.take(n) + silent(silence, before + 1));
        }
    }
    proof {
        if wanted == usize::MAX {
            assert(n == all.len());
            assert(out@ =~= all);
        } else if all.len() >= wanted {
            assert(out@ =~= all.take(wanted as int));
        } else {
            assert(all.take(n) =~= all);
        }
    }
    assert(buffer@ =~= left_over(all, wanted));
}

/// What stays of a buffer that may hold `max` samples: the newest.
pub open spec fn within<T>(buffer: Seq<T>, max: usize) -> Seq<T> {
    if buffer.len() > max {
        buffer.skip(buffer.len() - max)
    } else {
        buffer
    }
}

/// Drops the oldest samples when a source banks more than the drift guard allows.
pub fn trim_backlog<T: Copy>(buffer: &mut VecDeque<T>, max: usize)
    ensures
        final(buffer)@ == within(old(buffer)@, max),
{
    let ghost all = buffer@;
    let ghost mut gone: int = 0;
    assert(all.skip(0) =~= all);
    while buffer.len() > max
        invariant
            0 <= gone <= all.len(),
            gone > 0 ==> all.len() - gone >= max,
            buffer@ == all.skip(gone),
        decreases buffer@.len(),
    {
        let _ = buffer.pop_front();
        assert(all.skip(gone + 1) =~= all.skip(gone).subrange(1, all.skip(gone).len() as int));
        proof {
            gone = gone + 1;
        }
    }
    assert(buffer@ =~= within(all, max));
}

/// Samples of one turn: the clock's, and as many of each other source.
#[derive(Debug)]
pub struct MixTurn<T> {
    pub clock: Vec<T>,
    pub others: Vec<Vec<T>>,
}

/// What the write loop does next.
#[derive(Debug, Clone, Copy, PartialEq, Eq, Structural)]
pub enum MixStep {
    /// There are samples to write.
    Write,
    /// Nothing has arrived yet.
    Wait,
    /// Nothing is left, and a stop was asked for.
    Finish,
}

/// A stop is heeded only once everything that arrived is written.
pub fn mix_step(available: usize, stopping: bool) -> (r: MixStep)
    ensures
        r == (if available > 0 {
            MixStep::Write
        } else if stopping {
            MixStep::Finish
        } else {
            MixStep::Wait
        }),
{
    if available > 0 {
        MixStep::Write
    } else if stopping {
        MixStep::Finish
    } else {
        MixStep::Wait
    }
}

/// Takes one turn: everything the clock has, and of every other source exactly as many
/// samples, which is what keeps the streams from sliding apart over hours.
pub fn take_turn<T: Copy>(
    clock: &mut VecDeque<T>,
    others: Vec<VecDeque<T>>,
    silence: T,
    max_backlog: usize,
) -> (r: (MixTurn<T>, Vec<VecDeque<T>>))
    requires
        old(clock)@.len() < usize::MAX,
    ensures
        r.0.clock@ == old(clock)@,
        final(clock)@ == Seq::<T>::empty(),
        r.0.others@.len() == others@.len(),
        r.1@.len() == others@.len(),
        forall|i: int|
            0 <= i < others@.len() ==> (#[trigger] r.0.others@[i])@ == taken(
                others@[i]@,
                old(clock)@.len() as usize,
                silence,
            ),
        forall|i: int|
            0 <= i < others@.len() ==> (#[trigger] r.1@[i])@ == within(
                left_over(others@[i]@, old(clock)@.len() as usize),
                max_backlog,
            ),
{
    let mut main: Vec<T> = Vec::new();
    let ghost all = clock@;
    take_available(clock, usize::MAX, silence, &mut main);
    assert(clock@ =~= Seq::<T>::empty());
    let wanted = main.len();
    let mut taken_of: Vec<Vec<T>> = Vec::new();
    let mut kept: Vec<VecDeque<T>> = Vec::new();
    let ghost sources = others@;
    let mut rest = others;
    let mut i: usize = 0;
    let count = rest.len();
    while i < count
        invariant
            i <= count,
            count == sources.len(),
            rest@ == sources.skip(i as int),
            wanted == all.len(),
            taken_of@.len() == i,
            kept@.len() == i,
            forall|j: int|
                0 <= j < i ==> (#[trigger] taken_of@[j])@ == taken(sources[j]@, wanted, silence),
            forall|j: int|
                0 <= j < i ==> (#[trigger] kept@[j])@ == within(
                    left_over(sources[j]@, wanted),
                    max_backlog,
                ),
        decreases count - i,
    {
        let mut source = rest.remove(0);
        assert(sources.skip(i as int)[0] == sources[i as int]);
        assert(rest@ =~= sources.skip(i + 1));
        let mut part: Vec<T> = Vec::new();
        take_available(&mut source, wanted, silence, &mut part);
        trim_backlog(&mut source, max_backlog);
        taken_of.push(part);
        kept.push(source);
        i = i + 1;
    }
    (MixTurn { clock: main, others: taken_of }, kept)
}

/// Every source yields as many samples as the clock does, and none banks more than the
/// drift guard allows.
pub proof fn sources_keep_pace<T>(buffer: Seq<T>, wanted: usize, silence: T, max: usize)
    requires
        wanted < usize::MAX,
    ensures
        taken(buffer, wanted, silence).len() == wanted,
        within(left_over(buffer, wanted), max).len() <= max,
{
}

/// Nothing that arrived is lost but what the drift guard drops: what is taken, without its
/// padding, and what is left are the buffer.
pub proof fn taking_loses_nothing<T>(buffer: Seq<T>, wanted: usize, silence: T)
    requires
        buffer.len() <= usize::MAX,
    ensures
        ({
            let t = taken(buffer, wanted, silence);
            let n = if t.len() < buffer.len() {
                t.len()
            } else {
                buffer.len()
            };
            t.take(n as int) + left_over(buffer, wanted) == buffer
        }),
{
    let t = taken(buffer, wanted, silence);
    let n = if t.len() < buffer.len() {
        t.len()
    } else {
        buffer.len()
    };
    assert(t.take(n as int) + left_over(buffer, wanted) =~= buffer);
}

// ------------------------------------------------------------------------ devices

/// The first of the ranges that has the rate of the mix, so that nothing is resampled.
pub open spec fn is_first_native(ranges: Seq<(u32, u32)>, i: int) -> bool {
    &&& 0 <= i < ranges.len()
    &&& ranges[i].0 <= TARGET_SAMPLE_RATE <= ranges[i].1
    &&& forall|j: int|
        0 <= j < i ==> !((#[trigger] ranges[j]).0 <= TARGET_SAMPLE_RATE <= ranges[j].1)
}

/// Prefers a native configuration so the resampler can be skipped entirely. `None` where
/// the default has to be used and resampled.
pub fn pick_config(ranges: &Vec<(u32, u32)>) -> (r: Option<usize>)
    ensures
        match r {
            Some(i) => is_first_native(ranges@, i as int),
            None => forall|i: int|
                0 <= i < ranges@.len() ==> !((#[trigger] ranges@[i]).0 <= TARGET_SAMPLE_RATE
                    <= ranges@[i].1),
        },
{
    let mut i: usize = 0;
    while i < ranges.len()
        invariant
            i <= ranges.len(),
            forall|j: int|
                0 <= j < i ==> !((#[trigger] ranges@[j]).0 <= TARGET_SAMPLE_RATE <= ranges@[j].1),
        decreases ranges.len() - i,
    {
        if ranges[i].0 <= TARGET_SAMPLE_RATE && ranges[i].1 >= TARGET_SAMPLE_RATE {
            return Some(i);
        }
        i = i + 1;
    }
    None
}

/// Whether samples have to be resampled, or why they cannot be.
pub fn needs_resampler(from: u32, to: u32) -> (r: Result<bool, String>)
    ensures
        match r {
            Ok(needed) => from > 0 && needed == (from != to),
            Err(e) => from == 0 && e@ == "Audio source reported a sample rate of zero."@,
        },
{
    if from == 0 {
        return Err("Audio source reported a sample rate of zero.".to_owned());
    }
    Ok(from != to)
}

pub fn missing_device(name: &str) -> (r: String)
    ensures
        r@ == "Audio device \""@ + name@ + "\" is not available. Run: nbmeet doctor"@,
{
    "Audio device \"".to_owned().concat(name).concat("\" is not available. Run: nbmeet doctor")
}

/// How a mix format encodes samples.
#[derive(Debug, Clone, Copy, PartialEq, Eq, Structural)]
pub enum SampleEncoding {
    Float32,
    Int16,
    Int32,
}

pub const WAVE_FORMAT_PCM: u32 = 0x0001;

pub const WAVE_FORMAT_IEEE_FLOAT: u32 = 0x0003;

pub const WAVE_FORMAT_EXTENSIBLE: u32 = 0xFFFE;

/// The encoding that a format tag and a bit depth mean. An extensible format hides the real
/// tag, but the bit depth is enough to tell the cases apart in practice.
pub open spec fn encoding(tag: u32, bits: u16) -> Option<SampleEncoding> {
    if tag == WAVE_FORMAT_IEEE_FLOAT || tag == WAVE_FORMAT_EXTENSIBLE && bits == 32 {
        Some(SampleEncoding::Float32)
    } else if (tag == WAVE_FORMAT_PCM || tag == WAVE_FORMAT_EXTENSIBLE) && bits == 16 {
        Some(SampleEncoding::Int16)
    } else if tag == WAVE_FORMAT_PCM && bits == 32 {
        Some(SampleEncoding::Int32)
    } else {
        None
    }
}

pub fn encoding_of(tag: u32, bits: u16) -> (r: Result<SampleEncoding, String>)
    ensures
        match r {
            Ok(e) => encoding(tag, bits) == Some(e),
            Err(message) => encoding(tag, bits) is None && message@
                == "Unsupported playback mix format (tag "@ + decimal(tag as nat) + ", "@ + decimal(
                bits as nat,
            ) + "-bit), so system audio cannot be captured."@,
        },
{
    if tag == WAVE_FORMAT_IEEE_FLOAT || tag == WAVE_FORMAT_EXTENSIBLE && bits == 32 {
        Ok(SampleEncoding::Float32)
    } else if (tag == WAVE_FORMAT_PCM || tag == WAVE_FORMAT_EXTENSIBLE) && bits == 16 {
        Ok(SampleEncoding::Int16)
    } else if tag == WAVE_FORMAT_PCM && bits == 32 {
        Ok(SampleEncoding::Int32)
    } else {
        Err(
            "Unsupported playback mix format (tag ".to_owned().concat(
                to_decimal(tag as u64).as_str(),
            ).concat(", ").concat(to_decimal(bits as u64).as_str()).concat(
                "-bit), so system audio cannot be captured.",
            ),
        )
    }
}

impl SampleEncoding {
    /// Bytes of one sample.
    pub fn width(&self) -> (r: usize)
        ensures
            r == (if self == SampleEncoding::Int16 {
                2int
            } else {
                4int
            }),
    {
        match self {
            SampleEncoding::Int16 => 2,
            _ => 4,
        }
    }
}

// ------------------------------------------------------------------- system audio

/// Whether system audio can be captured here, and what is in the way if not.
#[derive(Debug, Clone, PartialEq, Eq)]
pub enum SystemAudioStatus {
    Ready,
    /// Supported, but the system has not granted permission yet.
    PermissionRequired { hint: String },
    /// Not supported on this platform or configuration.
    Unavailable { reason: String },
}

#[verifier::ext_equal]
pub enum SystemStatusView {
    Ready,
    PermissionRequired(Seq<char>),
    Unavailable(Seq<char>),
}

impl View for SystemAudioStatus {
    type V = SystemStatusView;

    open spec fn view(&self) -> SystemStatusView {
        match self {
            SystemAudioStatus::Ready => SystemStatusView::Ready,
            SystemAudioStatus::PermissionRequired { hint } => SystemStatusView::PermissionRequired(
                hint@,
            ),
            SystemAudioStatus::Unavailable { reason } => SystemStatusView::Unavailable(reason@),
        }
    }
}

/// What the system says of its displays, of its playback device, or of its inputs.
#[derive(Debug)]
pub enum SystemEvidence {
    /// macOS: whether recording is permitted, and how many displays can be captured.
    Displays { permitted: bool, displays: Result<usize, String> },
    /// Windows: the name of the playback device.
    Playback { device: Result<String, String> },
    /// Elsewhere: the input devices, of which a monitor may be one.
    Inputs { devices: Vec<String> },
}

/// The first device whose name marks it as a monitor of the system output.
pub open spec fn monitor_among(devices: Seq<Seq<char>>) -> Option<Seq<char>>
    decreases devices.len(),
{
    if devices.len() == 0 {
        None
    } else {
        match monitor_among(devices.drop_last()) {
            Some(device) => Some(device),
            None => if has(lowercase_of(devices.last()), "monitor"@) {
                Some(devices.last())
            } else {
                None
            },
        }
    }
}

pub fn linux_monitor_source(devices: &Vec<String>) -> (r: Option<String>)
    ensures
        opt_text(r) == monitor_among(texts(devices@)),
{
    let ghost all = texts(devices@);
    let mut found: Option<String> = None;
    let mut i: usize = 0;
    while i < devices.len()
        invariant
            i <= devices.len(),
            all == texts(devices@),
            opt_text(found) == monitor_among(all.take(i as int)),
        decreases devices.len() - i,
    {
        assert(all.take(i + 1).drop_last() == all.take(i as int));
        assert(all.take(i + 1).last() == devices@[i as int]@);
        if found.is_none() && contains(to_lowercase(devices[i].as_str()).as_str(), "monitor") {
            found = Some(devices[i].clone());
        }
        i = i + 1;
    }
    assert(all.take(i as int) == all);
    found
}

/// The device name system audio would be captured from.
pub open spec fn source_name(evidence: SystemEvidence) -> Option<Seq<char>> {
    match evidence {
        SystemEvidence::Displays { .. } => Some("ScreenCaptureKit (system output)"@),
        SystemEvidence::Playback { device } => match device {
            Ok(name) => Some(name@),
            Err(_) => None,
        },
        SystemEvidence::Inputs { devices } => monitor_among(texts(devices@)),
    }
}

pub fn system_source_name(evidence: &SystemEvidence) -> (r: Option<String>)
    ensures
        opt_text(r) == source_name(*evidence),
{
    match evidence {
        SystemEvidence::Displays { .. } => Some("ScreenCaptureKit (system output)".to_owned()),
        SystemEvidence::Playback { device } => match device {
            Ok(name) => Some(name.clone()),
            Err(_) => None,
        },
        SystemEvidence::Inputs { devices } => linux_monitor_source(devices),
    }
}

pub open spec fn system_status_of(evidence: SystemEvidence) -> SystemStatusView {
    match evidence {
        SystemEvidence::Displays { permitted, displays } => if !permitted {
            SystemStatusView::PermissionRequired(
                "Screen Recording permission is needed to capture what the other participants say. nbmeet doctor can ask for it."@,
            )
        } else {
            match displays {
                Ok(n) => if n > 0 {
                    SystemStatusView::Ready
                } else {
                    SystemStatusView::Unavailable("macOS reported no capturable display."@)
                },
                Err(e) => SystemStatusView::Unavailable(
                    "ScreenCaptureKit is unavailable: "@ + e@,
                ),
            }
        },
        SystemEvidence::Playback { device } => match device {
            Ok(_) => SystemStatusView::Ready,
            Err(e) => SystemStatusView::Unavailable(e@),
        },
        SystemEvidence::Inputs { devices } => if monitor_among(texts(devices@)) is Some {
            SystemStatusView::Ready
        } else {
            SystemStatusView::Unavailable(
                "No PulseAudio or PipeWire monitor source is available."@,
            )
        },
    }
}

/// Whether system audio can be captured, and what is in the way if not.
pub fn system_audio_status(evidence: &SystemEvidence) -> (r: SystemAudioStatus)
    ensures
        r@ == system_status_of(*evidence),
{
    match evidence {
        SystemEvidence::Displays { permitted, displays } => {
            if !*permitted {
                return SystemAudioStatus::PermissionRequired {
                    hint: "Screen Recording permission is needed to capture what the other participants say. nbmeet doctor can ask for it.".to_owned(),
                };
            }
            match displays {
                Ok(n) => if *n > 0 {
                    SystemAudioStatus::Ready
                } else {
                    SystemAudioStatus::Unavailable {
                        reason: "macOS reported no capturable display.".to_owned(),
                    }
                },
                Err(e) => SystemAudioStatus::Unavailable {
                    reason: "ScreenCaptureKit is unavailable: ".to_owned().concat(e.as_str()),
                },
            }
        },
        SystemEvidence::Playback { device } => match device {
            Ok(_) => SystemAudioStatus::Ready,
            Err(e) => SystemAudioStatus::Unavailable { reason: e.clone() },
        },
        SystemEvidence::Inputs { devices } => match linux_monitor_source(devices) {
            Some(_) => SystemAudioStatus::Ready,
            None => SystemAudioStatus::Unavailable {
                reason: "No PulseAudio or PipeWire monitor source is available.".to_owned(),
            },
        },
    }
}

// ------------------------------------------------------------------------- probing

/// What a short test of one source found.
#[derive(Debug, Clone)]
pub struct SourceProbe {
    pub kind: SourceKind,
    /// Device or capture backend the samples would come from.
    pub source: Option<String>,
    /// The source opened. Not the same as "heard something".
    pub opened: bool,
    pub levels: Levels,
    pub error: Option<String>,
}

impl SourceProbe {
    pub open spec fn heard(self) -> bool {
        self.opened && !self.levels.silent()
    }

    /// Signal above the silence floor. Absence is not failure: nobody may have been
    /// speaking, and nothing may have been playing.
    pub fn heard_something(&self) -> (r: bool)
        ensures
            r == self.heard(),
    {
        self.opened && !self.levels.is_silent()
    }
}

/// The device a probe of a kind would use.
pub fn probed_source(
    kind: SourceKind,
    device: &Option<String>,
    devices: &Vec<String>,
    system: &Option<String>,
) -> (r: Option<String>)
    ensures
        opt_text(r) == (match kind {
            SourceKind::Mic => if device is Some {
                opt_text(*device)
            } else if devices@.len() > 0 {
                Some(devices@[0]@)
            } else {
                None
            },
            SourceKind::System => opt_text(*system),
        }),
{
    match kind {
        SourceKind::Mic => match device {
            Some(name) => Some(name.clone()),
            None => if devices.len() > 0 {
                Some(devices[0].clone())
            } else {
                None
            },
        },
        SourceKind::System => copy_opt(system),
    }
}

/// What a source heard: over the whole probe, where any samples arrived, since the levels
/// of the last moment can miss speech that happened just before.
#[derive(Debug)]
pub struct Heard {
    pub last: Levels,
    pub whole: Levels,
    pub samples: u64,
}

pub fn probe(kind: SourceKind, source: Option<String>, outcome: Result<Heard, String>) -> (r:
    SourceProbe)
    ensures
        r.kind == kind,
        r.source == source,
        match outcome {
            Ok(heard) => r.opened && r.error is None && r.levels == (if heard.samples > 0 {
                heard.whole
            } else {
                heard.last
            }),
            Err(e) => !r.opened && r.levels.peak == 0 && r.levels.rms == 0 && opt_text(r.error)
                == Some(e@),
        },
{
    match outcome {
        Ok(heard) => SourceProbe {
            kind,
            source,
            opened: true,
            levels: if heard.samples > 0 {
                heard.whole
            } else {
                heard.last
            },
            error: None,
        },
        Err(e) => SourceProbe {
            kind,
            source,
            opened: false,
            levels: Levels { peak: 0, rms: 0 },
            error: Some(e),
        },
    }
}

/// A source is open where it was opened, and each that was refused is named with its reason.
pub proof fn each_source_is_open_or_named(mic: Opening, system: Opening)
    ensures
        opened_kinds(mic, system).contains(SourceKind::Mic) <==> mic is Opened,
        opened_kinds(mic, system).contains(SourceKind::System) <==> system is Opened,
        opened_kinds(mic, system).no_duplicates(),
        mic is Opened ==> opened_kinds(mic, system)[0] == SourceKind::Mic,
        opening_problems(mic, system).len() == (if mic is Refused {
            1int
        } else {
            0
        }) + (if system is Refused {
            1int
        } else {
            0
        }),
        mic is Refused ==> opening_problems(mic, system)[0] == "microphone: "@ + mic->Refused_0@,
        system is Refused ==> opening_problems(mic, system).last() == "system audio: "@
            + system->Refused_0@,
{
    let open = opened_kinds(mic, system);
    if mic is Opened {
        assert(open[0] == SourceKind::Mic);
    }
    if system is Opened {
        assert(open[open.len() - 1] == SourceKind::System);
    }
    reveal_strlit("microphone");
    reveal_strlit("microphone: ");
    reveal_strlit("system audio");
    reveal_strlit("system audio: ");
    reveal_strlit(": ");
    assert("microphone"@ + ": "@ =~= "microphone: "@);
    assert("system audio"@ + ": "@ =~= "system audio: "@);
}

/// A source that has too little to give is filled up with silence behind what it has, and of one
/// that falls behind the newest samples are kept.
pub proof fn silence_fills_up_what_is_missing<T>(buffer: Seq<T>, wanted: usize, silence: T, max: usize)
    requires
        wanted < usize::MAX,
    ensures
        forall|i: int|
            0 <= i < wanted && i < buffer.len() ==> #[trigger] taken(buffer, wanted, silence)[i]
                == buffer[i],
        forall|i: int|
            buffer.len() <= i < wanted ==> #[trigger] taken(buffer, wanted, silence)[i] == silence,
        buffer.len() <= max ==> within(buffer, max) == buffer,
        buffer.len() > max ==> within(buffer, max) == buffer.subrange(
            buffer.len() - max,
            buffer.len() as int,
        ),
{
}

/// The encoding of a sample fits its width: sixteen bits for a short integer, and a float of
/// thirty-two wherever the format says no more than that.
pub proof fn an_encoding_fits_its_width(tag: u32, bits: u16)
    ensures
        encoding(tag, bits) == Some(SampleEncoding::Int16) <==> bits == 16 && (tag == 1 || tag
            == 0xfffe),
        encoding(tag, bits) == Some(SampleEncoding::Int32) <==> bits == 32 && tag == 1,
        encoding(tag, bits) == Some(SampleEncoding::Float32) <==> tag == 3 || bits == 32 && tag
            == 0xfffe,
{
}

/// The monitor that is recorded from is the first device that calls itself one.
pub proof fn the_first_monitor_is_taken(devices: Seq<Seq<char>>, i: int)
    requires
        0 <= i < devices.len(),
        has(lowercase_of(devices[i]), "monitor"@),
        forall|k: int|
            0 <= k < i ==> lacks(lowercase_of(#[trigger] devices[k]), "monitor"@),
    ensures
        monitor_among(devices) == Some(devices[i]),
    decreases devices.len(),
{
    let front = devices.drop_last();
    if i < front.len() {
        assert(front[i] == devices[i]);
        the_first_monitor_is_taken(front, i);
    } else {
        no_monitor_is_made_up(front);
    }
}

/// Where no device calls itself a monitor there is none.
pub proof fn no_monitor_is_made_up(devices: Seq<Seq<char>>)
    requires
        forall|k: int|
            0 <= k < devices.len() ==> lacks(lowercase_of(#[trigger] devices[k]), "monitor"@),
    ensures
        monitor_among(devices) is None,
    decreases devices.len(),
{
    if devices.len() > 0 {
        assert(lacks(lowercase_of(devices[devices.len() - 1]), "monitor"@));
        no_monitor_is_made_up(devices.drop_last());
    }
}

/// System audio is ready where it can be captured: with permission and a display, with a playback
/// device, or with a monitor among the inputs. What is ready has a name.
pub proof fn system_audio_is_ready_where_it_can_be_captured(evidence: SystemEvidence)
    ensures
        system_status_of(evidence) is Ready <==> match evidence {
            SystemEvidence::Displays { permitted, displays } => permitted && displays is Ok
                && displays->Ok_0 > 0,
            SystemEvidence::Playback { device } => device is Ok,
            SystemEvidence::Inputs { devices } => source_name(evidence) is Some,
        },
        system_status_of(evidence) is Ready ==> source_name(evidence) is Some,
        system_status_of(evidence) is PermissionRequired <==> (evidence matches
            SystemEvidence::Displays { permitted, displays } && !permitted),
{
}

/// Something was heard where the source opened and was not silent.
pub proof fn only_an_open_source_is_heard(probe: SourceProbe)
    ensures
        probe.heard() <==> probe.opened && (probe.levels.peak >= 0x38d1_b717 || probe.levels.rms
            >= 0x3851_b717),
{
}

} // verus!
