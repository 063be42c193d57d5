//! Around a meeting: its status, importing audio, picking up what was left behind, the
//! history, the sample gate switch, and checking that capture works.
use vstd::prelude::*;
use crate::capture::{SourceProbe, SystemAudioStatus, SystemStatusView};
use crate::commands::{action_of, joined, read_action};
use crate::config::{Config, Provider, key_named, on_unless_off, setting_or};
use crate::import::Imported;
use crate::number::{decimal, to_decimal};
use crate::order::{sort_texts, sorted, sorting_keeps_members};
use crate::pipeline::{MeetingEntry, active_view, in_flight, resumable, unfinished};
use crate::report::{Line, LineView, Report, line_if};
use crate::setup::on_word;
use crate::state::{ActiveMeeting, Phase, SourceLevel, has_summary_key};
use crate::text::{
    chars_of, copy_opt, equal_to, first_piece_stays, join_texts, lines, lines_of, opt_text, part_of,
    split_at, split_by, split_of_one_piece, splitting_goes_piece_by_piece, string_of, texts,
    texts_of_push, trim, trim_front, trim_front_by, trimmed, trimming_forgets_padding,
};
use crate::time::{Time, clock, clock_text};
use crate::upkeep::{SwitchAction, is_switch_action, switch_action_of};

verus! {

broadcast use texts_of_push;

// --------------------------------------------------------------------------- status

/// What is said when no meeting is active.
pub open spec fn idle_lines(unfinished: nat) -> Seq<LineView> {
    seq![LineView::Info("No meeting in progress."@)] + (if unfinished > 0 {
        seq![
            LineView::Warn(
                decimal(unfinished) + " recorded meeting(s) were never transcribed."@,
            ),
            LineView::Hint("Finish the most recent with: nbmeet process"@),
        ]
    } else {
        Seq::<LineView>::empty()
    })
}

pub fn idle_report(unfinished: usize) -> (r: Report)
    ensures
        r@ == idle_lines(unfinished as nat),
{
    let mut r = Report::new();
    r.info("No meeting in progress.");
    if unfinished > 0 {
        r.warn(
            to_decimal(unfinished as u64).concat(
                " recorded meeting(s) were never transcribed.",
            ).as_str(),
        );
        r.hint("Finish the most recent with: nbmeet process");
    }
    assert(r@ =~= idle_lines(unfinished as nat));
    r
}

/// How many recorded meetings were never finished.
pub fn unfinished_count(entries: &Vec<MeetingEntry>, active: Option<&ActiveMeeting>) -> (r: usize)
    ensures
        r == unfinished(entries@, in_flight(active_view(active))).len(),
{
    proof {
        sorting_keeps_members(unfinished(entries@, in_flight(active_view(active))));
    }
    let list = resumable(entries, active);
    assert(texts(list@).len() == list.len());
    list.len()
}

/// What the audio of a meeting is shown as: its place, and what is safely on disk, read from
/// the header rather than from what the recorder intends.
pub open spec fn audio_lines(path: Option<Seq<char>>, on_disk: Option<Time>) -> Seq<LineView> {
    match path {
        Some(path) => seq![LineView::Field("Audio"@, path)] + (match on_disk {
            Some(length) => seq![LineView::Field("On disk"@, clock_text(length as int))],
            None => Seq::<LineView>::empty(),
        }),
        None => Seq::<LineView>::empty(),
    }
}

/// One line for each source. `levels` holds their peaks and RMS as text.
pub open spec fn status_levels(sources: Seq<SourceLevel>, levels: Seq<Seq<char>>) -> Seq<LineView> {
    Seq::new(
        sources.len(),
        |i: int|
            LineView::Field(
                sources[i].source@,
                if sources[i].silent {
                    "silent for the whole recording"@
                } else {
                    levels[i]
                },
            ),
    )
}

pub open spec fn next_step(phase: Phase) -> Seq<LineView> {
    match phase {
        Phase::AwaitingApproval => seq![
            LineView::Hint("Approve a mode: nbmeet approve transcribe|codemix"@),
        ],
        Phase::Recorded => seq![LineView::Hint("Finish it: nbmeet process"@)],
        Phase::Recording => seq![LineView::Hint("Stop it: nbmeet stop"@)],
        _ => Seq::<LineView>::empty(),
    }
}

pub open spec fn meeting_lines(
    meeting: ActiveMeeting,
    elapsed: Time,
    on_disk: Option<Time>,
    levels: Seq<Seq<char>>,
) -> Seq<LineView> {
    seq![
        LineView::Heading("Meeting "@ + meeting.id@),
        LineView::Field("State"@, meeting.phase.name()),
        LineView::Field("Started"@, meeting.started_at@),
    ] + line_if(
        meeting.phase.capturing(),
        LineView::Field("Elapsed"@, clock_text(elapsed as int)),
    ) + (match meeting.duration {
        Some(length) => seq![LineView::Field("Recorded"@, clock_text(length as int))],
        None => Seq::<LineView>::empty(),
    }) + audio_lines(opt_text(meeting.audio_path), on_disk) + status_levels(
        meeting.source_levels@,
        levels,
    ) + (match meeting.error {
        Some(e) => seq![LineView::Failure(e@)],
        None => Seq::<LineView>::empty(),
    }) + next_step(meeting.phase)
}

/// The active meeting.
pub fn status(
    meeting: &ActiveMeeting,
    elapsed: Time,
    on_disk: Option<Time>,
    levels: &Vec<String>,
) -> (r: Report)
    requires
        levels@.len() == meeting.source_levels@.len(),
    ensures
        r@ == meeting_lines(*meeting, elapsed, on_disk, texts(levels@)),
{
    let mut r = Report::new();
    r.heading("Meeting ".to_owned().concat(meeting.id.as_str()).as_str());
    r.field("State", meeting.phase.as_str());
    r.field("Started", meeting.started_at.as_str());
    if meeting.phase.is_capturing() {
        r.field("Elapsed", clock(elapsed).as_str());
    }
    if let Some(length) = meeting.duration {
        r.field("Recorded", clock(length).as_str());
    }
    if let Some(path) = &meeting.audio_path {
        r.field("Audio", path.as_str());
        if let Some(length) = on_disk {
            r.field("On disk", clock(length).as_str());
        }
    }
    let ghost first = r@;
    assert(first =~= seq![
        LineView::Heading("Meeting "@ + meeting.id@),
        LineView::Field("State"@, meeting.phase.name()),
        LineView::Field("Started"@, meeting.started_at@),
    ] + line_if(
        meeting.phase.capturing(),
        LineView::Field("Elapsed"@, clock_text(elapsed as int)),
    ) + (match meeting.duration {
        Some(length) => seq![LineView::Field("Recorded"@, clock_text(length as int))],
        None => Seq::<LineView>::empty(),
    }) + audio_lines(opt_text(meeting.audio_path), on_disk));
    let sources = &meeting.source_levels;
    let ghost all = status_levels(sources@, texts(levels@));
    let mut i: usize = 0;
    assert(r@ =~= first + all.take(0));
    while i < sources.len()
        invariant
            i <= sources.len(),
            levels@.len() == sources@.len(),
            all == status_levels(sources@, texts(levels@)),
            r@ == first + all.take(i as int),
        decreases sources.len() - i,
    {
        assert(texts(levels@)[i as int] == levels@[i as int]@);
        r.field(
            sources[i].source.as_str(),
            if sources[i].silent {
                "silent for the whole recording"
            } else {
                levels[i].as_str()
            },
        );
        assert(first + all.take(i + 1) =~= (first + all.take(i as int)).push(all[i as int]));
        i = i + 1;
    }
    assert(all.take(i as int) =~= all);
    if let Some(e) = &meeting.error {
        r.failure(e.as_str());
    }
    match meeting.phase {
        Phase::AwaitingApproval => {
            r.hint("Approve a mode: nbmeet approve transcribe|codemix");
        },
        Phase::Recorded => {
            r.hint("Finish it: nbmeet process");
        },
        Phase::Recording => {
            r.hint("Stop it: nbmeet stop");
        },
        _ => {},
    }
    assert(r@ =~= meeting_lines(*meeting, elapsed, on_disk, texts(levels@)));
    r
}

// ------------------------------------------------------------------------- importing

/// Why audio cannot be imported beside a meeting.
pub open spec fn import_refusal(active: Option<(Seq<char>, Phase)>) -> Option<Seq<char>> {
    match active {
        Some((id, phase)) => if phase.capturing() || phase.processing() {
            Some(
                "Meeting "@ + id + " is "@ + phase.name()
                    + ". Wait for it, or stop it first."@,
            )
        } else {
            None
        },
        None => None,
    }
}

pub fn check_import(active: Option<&ActiveMeeting>) -> (r: Result<(), String>)
    ensures
        match r {
            Ok(_) => import_refusal(active_view(active)) is None,
            Err(e) => import_refusal(active_view(active)) == Some(e@),
        },
{
    match active {
        Some(m) => if m.phase.is_capturing() || m.phase.is_processing() {
            Err(
                "Meeting ".to_owned().concat(m.id.as_str()).concat(" is ").concat(
                    m.phase.as_str(),
                ).concat(". Wait for it, or stop it first."),
            )
        } else {
            Ok(())
        },
        None => Ok(()),
    }
}

/// The source that is named on the command line.
pub fn import_source(args: &Vec<String>) -> (r: Result<String, String>)
    ensures
        match r {
            Ok(source) => source@ == joined(texts(args@), " "@) && source@.len() > 0,
            Err(e) => joined(texts(args@), " "@).len() == 0 && e@
                == "Usage: nbmeet audio <path-or-url>"@,
        },
{
    let source = trim(join_texts(args, " ").as_str());
    if source.as_str().is_empty() {
        return Err("Usage: nbmeet audio <path-or-url>".to_owned());
    }
    Ok(source)
}

/// A meeting made of imported audio. Its length comes from the header of a WAV, where there
/// is one; otherwise the provider's timestamps are the only measure.
pub fn imported_meeting(
    id: &str,
    started_at: String,
    imported: &Imported,
    length: Option<Time>,
) -> (r: ActiveMeeting)
    ensures
        r.id@ == id@,
        r.started_at == started_at,
        r.phase == Phase::Recorded,
        opt_text(r.audio_path) == Some(imported.audio@),
        opt_text(r.sample_source) == opt_text(imported.sampleable),
        opt_text(r.gate_blocked) == opt_text(imported.gate_blocked),
        r.imported,
        r.duration == length,
        r.recorder_pid is None,
        r.sample is None,
        r.approved_mode is None,
        r.note is None,
        r.error is None,
        r.source_levels@.len() == 0,
{
    let mut meeting = ActiveMeeting::started(id, started_at);
    meeting.phase = Phase::Recorded;
    meeting.audio_path = Some(imported.audio.clone());
    meeting.sample_source = copy_opt(&imported.sampleable);
    meeting.gate_blocked = copy_opt(&imported.gate_blocked);
    meeting.imported = true;
    meeting.duration = length;
    meeting
}

pub fn imported_note(path: &str, length: Option<Time>) -> (r: String)
    ensures
        r@ == "Imported "@ + path@ + (match length {
            Some(t) => " ("@ + clock_text(t as int) + ")"@,
            None => Seq::<char>::empty(),
        }) + "."@,
{
    let shown = match length {
        Some(t) => " (".to_owned().concat(clock(t).as_str()).concat(")"),
        None => String::new(),
    };
    "Imported ".to_owned().concat(path).concat(shown.as_str()).concat(".")
}

// ----------------------------------------------------------------------- processing

/// What `process` picks up.
#[derive(Debug)]
pub enum Pickup {
    /// The active meeting, which was recorded.
    Active,
    /// The active meeting, which waits for approval.
    Approve,
    /// A recording that was left behind.
    Recover(String),
}

pub open spec fn pickup(
    active: Option<(Seq<char>, Phase)>,
    id: Option<Seq<char>>,
    waiting: Seq<Seq<char>>,
) -> Option<(bool, bool, Seq<char>)> {
    match (id, active) {
        (Some(id), _) => Some((false, false, id)),
        (None, Some((_, Phase::Recorded))) => Some((true, false, Seq::<char>::empty())),
        (None, Some((_, Phase::AwaitingApproval))) => Some((false, true, Seq::<char>::empty())),
        _ => if waiting.len() > 0 {
            Some((false, false, waiting[0]))
        } else {
            None
        },
    }
}

/// Prefers the active meeting; otherwise picks up the newest orphaned recording. An id that
/// is named is taken as it is.
pub fn choose_pickup(
    active: Option<&ActiveMeeting>,
    id: &Option<String>,
    waiting: &Vec<String>,
) -> (r: Result<Pickup, String>)
    ensures
        match r {
            Ok(Pickup::Active) => pickup(active_view(active), opt_text(*id), texts(waiting@))
                == Some((true, false, Seq::<char>::empty())),
            Ok(Pickup::Approve) => pickup(active_view(active), opt_text(*id), texts(waiting@))
                == Some((false, true, Seq::<char>::empty())),
            Ok(Pickup::Recover(name)) => pickup(
                active_view(active),
                opt_text(*id),
                texts(waiting@),
            ) == Some((false, false, name@)),
            Err(e) => pickup(active_view(active), opt_text(*id), texts(waiting@)) is None && e@
                == "No recorded meeting is waiting to be transcribed."@,
        },
{
    if let Some(name) = id {
        return Ok(Pickup::Recover(name.clone()));
    }
    if let Some(m) = active {
        if m.phase == Phase::Recorded {
            return Ok(Pickup::Active);
        }
        if m.phase == Phase::AwaitingApproval {
            return Ok(Pickup::Approve);
        }
    }
    assert(texts(waiting@).len() == waiting.len());
    if waiting.len() > 0 {
        Ok(Pickup::Recover(waiting[0].clone()))
    } else {
        Err("No recorded meeting is waiting to be transcribed.".to_owned())
    }
}

/// What is left of a meeting in its directory.
#[derive(Debug)]
pub struct Remains {
    pub id: String,
    pub audio: String,
    pub length: Option<Time>,
    pub sample_source: Option<String>,
}

/// A meeting put together from what it left behind. The start that was recorded is restored
/// where the archived state is still there, so the note does not claim the meeting happened
/// now.
pub fn recovered_meeting(remains: &Remains, now: String, archived: Option<ActiveMeeting>) -> (r:
    ActiveMeeting)
    ensures
        r.id@ == remains.id@,
        r.phase == Phase::Recorded,
        opt_text(r.audio_path) == Some(remains.audio@),
        r.duration == remains.length,
        opt_text(r.sample_source) == opt_text(remains.sample_source),
        match archived {
            Some(a) => r.started_at == a.started_at && r.source_levels == a.source_levels,
            None => r.started_at == now && r.source_levels@.len() == 0,
        },
        r.gate_blocked is None,
        !r.imported,
        r.recorder_pid is None,
        r.sample is None,
        r.approved_mode is None,
        r.note is None,
        r.error is None,
{
    let mut meeting = ActiveMeeting::started(remains.id.as_str(), now);
    meeting.phase = Phase::Recorded;
    meeting.audio_path = Some(remains.audio.clone());
    meeting.duration = remains.length;
    meeting.sample_source = copy_opt(&remains.sample_source);
    if let Some(a) = archived {
        meeting.started_at = a.started_at;
        meeting.source_levels = a.source_levels;
    }
    meeting
}

pub fn pickup_note(id: &str, length: Option<Time>) -> (r: String)
    ensures
        r@ == "Picking up "@ + id@ + (match length {
            Some(t) => " ("@ + clock_text(t as int) + " of audio)"@,
            None => Seq::<char>::empty(),
        }) + "."@,
{
    let shown = match length {
        Some(t) => " (".to_owned().concat(clock(t).as_str()).concat(" of audio)"),
        None => String::new(),
    };
    "Picking up ".to_owned().concat(id).concat(shown.as_str()).concat(".")
}

// -------------------------------------------------------------------------- history

/// The title of a note: its first line without the marks of a heading.
pub open spec fn title_in(body: Seq<char>) -> Option<Seq<char>> {
    let all = lines_of(body);
    if all.len() > 0 {
        Some(trimmed(trim_front(all[0], equal_to('#'))))
    } else {
        None
    }
}

fn is_mark(c: char) -> (r: bool)
    ensures
        r == (c == '#'),
{
    c == '#'
}

pub fn note_title_of(body: &str) -> (r: Option<String>)
    ensures
        opt_text(r) == title_in(body@),
{
    let all = lines(body);
    assert(texts(all@).len() == all.len());
    if all.len() == 0 {
        return None;
    }
    let line = chars_of(all[0].as_str());
    let start = trim_front_by(&line, is_mark, Ghost(equal_to('#')));
    let part = part_of(&line, start, line.len());
    assert(part@ =~= line@.skip(start as int));
    Some(trim(string_of(&part).as_str()))
}

/// A past meeting as it is listed: its title, or what is there instead.
pub fn history_line(id: &str, note: &Option<String>, has_audio: bool) -> (r: String)
    ensures
        r@ == id@ + "  "@ + (match note {
            Some(body) => match title_in(body@) {
                Some(title) => title,
                None => if has_audio {
                    "recorded, not transcribed"@
                } else {
                    "no notes"@
                },
            },
            None => if has_audio {
                "recorded, not transcribed"@
            } else {
                "no notes"@
            },
        }),
{
    let title = match note {
        Some(body) => note_title_of(body.as_str()),
        None => None,
    };
    let shown = match title {
        Some(title) => title,
        None => if has_audio {
            "recorded, not transcribed".to_owned()
        } else {
            "no notes".to_owned()
        },
    };
    id.to_owned().concat("  ").concat(shown.as_str())
}

/// The meetings to list, newest first, and no more than asked for.
pub fn newest_first(names: &Vec<String>, limit: usize) -> (r: Vec<String>)
    ensures
        texts(r@) == (if names@.len() > limit {
            sorted(texts(names@)).reverse().take(limit as int)
        } else {
            sorted(texts(names@)).reverse()
        }),
{
    let ordered = sort_texts(names);
    let ghost all = sorted(texts(names@)).reverse();
    proof {
        sorting_keeps_members(texts(names@));
    }
    assert(texts(ordered@).len() == ordered.len());
    let mut r: Vec<String> = Vec::new();
    let mut left: usize = ordered.len();
    assert(texts(r@) =~= all.take(0));
    while left > 0 && r.len() < limit
        invariant
            left <= ordered.len(),
            texts(ordered@) == sorted(texts(names@)),
            all == sorted(texts(names@)).reverse(),
            r.len() == ordered.len() - left,
            r.len() <= limit,
            texts(r@) == all.take(ordered.len() - left),
        decreases left,
    {
        let ghost k = ordered.len() - left;
        r.push(ordered[left - 1].clone());
        assert(all[k] == ordered@[left - 1]@);
        assert(all.take(k + 1) =~= all.take(k).push(all[k]));
        left = left - 1;
    }
    if left == 0 {
        assert(all.take(ordered.len() as int) =~= all);
    }
    r
}

// --------------------------------------------------------------------- gate, doctor

pub fn gate_action(args: &Vec<String>) -> (r: Result<SwitchAction, String>)
    ensures
        is_switch_action(
            r,
            action_of(texts(args@), "status"@),
            "Usage: nbmeet gate on|off|status"@,
        ),
{
    switch_action_of(read_action(args, "status").as_str(), "Usage: nbmeet gate on|off|status")
}

pub open spec fn gate_lines(config: Config, action: SwitchAction) -> Seq<LineView> {
    match action {
        SwitchAction::Status => seq![
            LineView::Field("Sample gate"@, on_word(on_unless_off(config.meeting_gate))),
            LineView::Hint(
                "On: a 3 minute sample is transcribed both ways and waits for your approval."@,
            ),
            LineView::Hint(
                "Off: the full recording is transcribed immediately in the last approved mode."@,
            ),
        ],
        SwitchAction::On => seq![
            LineView::Success(
                "Sample gate on. Every meeting waits for approval before the full run."@,
            ),
        ],
        SwitchAction::Off => seq![
            LineView::Success("Sample gate off."@),
            LineView::Warn(
                "A bad transcription mode will now produce confident-looking notes unchecked."@,
            ),
        ],
    }
}

/// Switches the sample gate, or shows it. Switching it off says what is being given up, rather than
/// only confirming.
pub fn gate(config: &mut Config, action: SwitchAction) -> (r: Report)
    ensures
        *final(config) == (match action {
            SwitchAction::Status => *old(config),
            SwitchAction::On => Config { meeting_gate: Some(true), ..*old(config) },
            SwitchAction::Off => Config { meeting_gate: Some(false), ..*old(config) },
        }),
        r@ == gate_lines(*old(config), action),
{
    let mut r = Report::new();
    match action {
        SwitchAction::Status => {
            r.field(
                "Sample gate",
                if config.meeting_gate_enabled() {
                    "on"
                } else {
                    "off"
                },
            );
            r.hint("On: a 3 minute sample is transcribed both ways and waits for your approval.");
            r.hint("Off: the full recording is transcribed immediately in the last approved mode.");
        },
        SwitchAction::On => {
            config.meeting_gate = Some(true);
            r.success("Sample gate on. Every meeting waits for approval before the full run.");
        },
        SwitchAction::Off => {
            config.meeting_gate = Some(false);
            r.success("Sample gate off.");
            r.warn("A bad transcription mode will now produce confident-looking notes unchecked.");
        },
    }
    assert(r@ =~= gate_lines(*old(config), action));
    r
}

/// What a probe found. `peak` is its peak as text.
pub open spec fn probe_line(probe: SourceProbe, peak: Seq<char>) -> LineView {
    let label = probe.kind.name();
    if !probe.opened {
        LineView::Failure(
            label + ": could not open — "@ + setting_or(probe.error, "unknown error"@),
        )
    } else if probe.heard() {
        LineView::Success(
            label + ": "@ + setting_or(probe.source, "unknown source"@)
                + " — heard audio (peak "@ + peak + ")"@,
        )
    } else {
        LineView::Warn(
            label + ": "@ + setting_or(probe.source, "unknown source"@)
                + " — opened but heard nothing"@,
        )
    }
}

pub fn report_probe(probe: &SourceProbe, peak: &str) -> (r: Line)
    ensures
        r@ == probe_line(*probe, peak@),
{
    let label = probe.kind.label();
    if !probe.opened {
        let error: &str = match &probe.error {
            Some(e) => e.as_str(),
            None => "unknown error",
        };
        return Line::Failure(label.to_owned().concat(": could not open — ").concat(error));
    }
    let source: &str = match &probe.source {
        Some(s) => s.as_str(),
        None => "unknown source",
    };
    if probe.heard_something() {
        Line::Success(
            label.to_owned().concat(": ").concat(source).concat(" — heard audio (peak ").concat(
                peak,
            ).concat(")"),
        )
    } else {
        Line::Warn(
            label.to_owned().concat(": ").concat(source).concat(" — opened but heard nothing"),
        )
    }
}

pub open spec fn key_lines(config: Config) -> Seq<LineView> {
    seq![LineView::Heading("Keys"@)] + (if config.has_key(Provider::Sarvam) {
        seq![LineView::Success("Sarvam: saved (transcription)"@)]
    } else {
        seq![
            LineView::Failure("Sarvam: missing — meetings cannot be transcribed"@),
            LineView::Hint("Add it: nbmeet setup"@),
        ]
    }) + seq![
        if config.has_key(Provider::Groq) {
            LineView::Success("Groq: saved (summaries)"@)
        } else {
            LineView::Warn("Groq: missing — meetings transcribe but are not summarised"@)
        },
    ]
}

/// Which keys are there.
pub fn key_report(config: &Config) -> (r: Report)
    ensures
        r@ == key_lines(*config),
{
    let mut r = Report::new();
    r.heading("Keys");
    if config.usable_key(Provider::Sarvam).is_some() {
        r.success("Sarvam: saved (transcription)");
    } else {
        r.failure("Sarvam: missing — meetings cannot be transcribed");
        r.hint("Add it: nbmeet setup");
    }
    if has_summary_key(config) {
        r.success("Groq: saved (summaries)");
    } else {
        r.warn("Groq: missing — meetings transcribe but are not summarised");
    }
    assert(r@ =~= key_lines(*config));
    r
}

/// What the doctor says of system audio before it is probed. `None` where a probe decides.
pub fn system_verdict(config: &Config, status: &SystemAudioStatus) -> (r: Option<Report>)
    ensures
        match r {
            Some(report) => report@ == (if !on_unless_off(config.meeting_system) {
                seq![
                    LineView::Warn(
                        "System audio: disabled in config — the other participants are not recorded"@,
                    ),
                ]
            } else {
                match status@ {
                    SystemStatusView::PermissionRequired(hint) => seq![
                        LineView::Failure("System audio: permission required"@),
                        LineView::Hint(hint),
                    ],
                    SystemStatusView::Unavailable(reason) => seq![
                        LineView::Failure("System audio: unavailable — "@ + reason),
                    ],
                    SystemStatusView::Ready => Seq::<LineView>::empty(),
                }
            }),
            None => on_unless_off(config.meeting_system) && status@ == SystemStatusView::Ready,
        },
        r is Some ==> !(on_unless_off(config.meeting_system) && status@
            == SystemStatusView::Ready),
{
    let (_, system) = config.meeting_capture();
    if !system {
        return Some(
            Report::of(
                Line::Warn(
                    "System audio: disabled in config — the other participants are not recorded".to_owned(),
                ),
            ),
        );
    }
    match status {
        SystemAudioStatus::Ready => None,
        SystemAudioStatus::PermissionRequired { hint } => {
            let mut r = Report::new();
            r.failure("System audio: permission required");
            r.hint(hint.as_str());
            assert(r@ =~= seq![
                LineView::Failure("System audio: permission required"@),
                LineView::Hint(hint@),
            ]);
            Some(r)
        },
        SystemAudioStatus::Unavailable { reason } => Some(
            Report::of(
                Line::Failure("System audio: unavailable — ".to_owned().concat(reason.as_str())),
            ),
        ),
    }
}

pub open spec fn meeting_settings_lines(config: Config, meetings: Seq<char>) -> Seq<LineView> {
    seq![
        LineView::Blank,
        LineView::Heading("Settings"@),
        LineView::Field(
            "Sample gate"@,
            if on_unless_off(config.meeting_gate) {
                "on — every meeting waits for approval"@
            } else {
                "off — full transcription runs immediately"@
            },
        ),
        LineView::Field("Last approved mode"@, setting_or(config.meeting_mode, "none yet"@)),
        LineView::Field("Meetings"@, meetings),
    ]
}

pub fn meeting_settings(config: &Config, meetings: &str) -> (r: Report)
    ensures
        r@ == meeting_settings_lines(*config, meetings@),
{
    let mut r = Report::new();
    r.blank();
    r.heading("Settings");
    r.field(
        "Sample gate",
        if config.meeting_gate_enabled() {
            "on — every meeting waits for approval"
        } else {
            "off — full transcription runs immediately"
        },
    );
    r.field(
        "Last approved mode",
        match &config.meeting_mode {
            Some(mode) => mode.as_str(),
            None => "none yet",
        },
    );
    r.field("Meetings", meetings);
    assert(r@ =~= meeting_settings_lines(*config, meetings@));
    r
}

// ---------------------------------------------------------------------------- setup

/// Saves the transcription key of the meeting setup. The settings are shared with dictation:
/// the model is only set if nothing is there, so a dictation choice is never overwritten.
pub fn save_meeting_key(config: &mut Config, key: &str)
    requires
        old(config).well_formed(),
    ensures
        final(config).well_formed(),
        final(config).key(Provider::Sarvam) == Some(key@),
        forall|name: Seq<char>|
            name != Provider::Sarvam.name() ==> #[trigger] key_named(final(config).keys@, name)
                == key_named(old(config).keys@, name),
        *final(config) == (Config {
            keys: final(config).keys,
            model: final(config).model,
            ..*old(config)
        }),
        opt_text(final(config).model) == Some(setting_or(old(config).model, "saaras:v3"@)),
{
    config.set_key(Provider::Sarvam, key);
    if config.model.is_none() {
        config.model = Some("saaras:v3".to_owned());
    }
}

// --------------------------------------------------------------------------- laws

/// A recording can be imported exactly while no meeting is being captured or worked on.
pub proof fn an_import_waits_for_the_meeting(active: Option<(Seq<char>, Phase)>)
    ensures
        import_refusal(active) is None <==> (active is None || (active matches Some((id, phase)) && (
        phase == Phase::Recorded || phase == Phase::AwaitingApproval || phase == Phase::Done
            || phase == Phase::Failed))),
{
}

/// What is picked up is the meeting that was named, else the one that is open, else the first that
/// was left behind.
pub proof fn what_was_named_is_picked_up(
    active: Option<(Seq<char>, Phase)>,
    id: Seq<char>,
    waiting: Seq<Seq<char>>,
)
    ensures
        pickup(active, Some(id), waiting) == Some((false, false, id)),
        (active matches Some((_, phase)) && phase == Phase::Recorded) ==> (pickup(
            active,
            None,
            waiting,
        )->0).0,
        (active matches Some((_, phase)) && phase == Phase::AwaitingApproval) ==> (pickup(
            active,
            None,
            waiting,
        )->0).1,
        active is None && waiting.len() > 0 ==> pickup(active, None, waiting) == Some(
            (false, false, waiting[0]),
        ),
        active is None && waiting.len() == 0 ==> pickup(active, None, waiting) is None,
{
}

/// The title of a note is what its first line says behind its marks.
#[verifier::spinoff_prover]
pub proof fn a_note_is_known_by_its_first_line(title: Seq<char>, rest: Seq<char>)
    requires
        forall|i: int| 0 <= i < title.len() ==> #[trigger] title[i] != '\n' && title[i] != '\r',
    ensures
        title_in(seq!['#', ' '] + title + seq!['\n'] + rest) == Some(trimmed(title)),
{
    let p = equal_to('\n');
    let first = seq!['#', ' '] + title;
    let lead = first + seq!['\n'];
    let body = seq!['#', ' '] + title + seq!['\n'] + rest;
    assert(body =~= lead + rest);
    assert forall|i: int| 0 <= i < first.len() implies !p(#[trigger] first[i]) by {
        if i >= 2 {
            assert(first[i] == title[i - 2]);
        }
    }
    split_of_one_piece(first, p);
    splitting_goes_piece_by_piece(first, '\n', Seq::<char>::empty(), p);
    assert(lead + Seq::<char>::empty() =~= lead);
    assert(split_by(lead, p) =~= seq![first, Seq::<char>::empty()]);
    first_piece_stays(lead, rest, p);
    let parts = split_at(body, '\n');
    assert(parts[0] == first);
    assert(parts.len() >= 2);
    assert(first.last() != '\r') by {
        if title.len() > 0 {
            assert(first.last() == title[title.len() - 1]);
        }
    }
    assert(lines_of(body)[0] == first);
    let bare = seq![' '] + title;
    assert(first.drop_first() =~= bare);
    assert(first[0] == '#');
    assert(bare[0] == ' ');
    let mark = equal_to('#');
    assert(mark(first[0]) && !mark(bare[0]));
    assert(trim_front(bare, mark) == bare);
    assert(trim_front(first, mark) == bare);
    trimming_forgets_padding(seq![' '], title, Seq::<char>::empty());
    assert(seq![' '] + title + Seq::<char>::empty() =~= bare);
}

/// A source is reported as heard exactly where it opened and was not silent, and as failed where it
/// did not open.
pub proof fn a_source_is_reported_as_it_was_heard(probe: SourceProbe, peak: Seq<char>)
    ensures
        probe_line(probe, peak) is Success <==> probe.heard(),
        probe_line(probe, peak) is Failure <==> !probe.opened,
        probe_line(probe, peak) is Warn <==> probe.opened && !probe.heard(),
{
}

/// The keys that a meeting needs are reported as they are: without Sarvam's nothing works, without
/// Groq's there is no summary.
pub proof fn missing_keys_are_reported(config: Config)
    ensures
        key_lines(config)[1] is Success <==> config.has_key(Provider::Sarvam),
        key_lines(config)[1] is Failure <==> !config.has_key(Provider::Sarvam),
        key_lines(config).last() is Success <==> config.has_key(Provider::Groq),
        key_lines(config).last() is Warn <==> !config.has_key(Provider::Groq),
{
}

/// The status of a meeting shows which it is, what it is doing, its length and what went wrong.
pub proof fn a_status_shows_the_meeting(
    meeting: ActiveMeeting,
    elapsed: Time,
    on_disk: Option<Time>,
    levels: Seq<Seq<char>>,
)
    ensures
        ({
            let shown = meeting_lines(meeting, elapsed, on_disk, levels);
            let counted = if meeting.phase.capturing() {
                1int
            } else {
                0
            };
            &&& shown[0] == LineView::Heading("Meeting "@ + meeting.id@)
            &&& shown[1] == LineView::Field("State"@, meeting.phase.name())
            &&& shown[2] == LineView::Field("Started"@, meeting.started_at@)
            &&& meeting.phase.capturing() ==> shown[3] == LineView::Field(
                "Elapsed"@,
                clock_text(elapsed as int),
            )
            &&& meeting.duration is Some ==> shown[3 + counted] == LineView::Field(
                "Recorded"@,
                clock_text(meeting.duration->0 as int),
            )
            &&& meeting.error is Some ==> shown[shown.len() - 1 - next_step(
                meeting.phase,
            ).len()] == LineView::Failure(meeting.error->0@)
        }),
{
}

} // verus!
