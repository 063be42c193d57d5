//! What the tools say when they are called without a command.
use vstd::prelude::*;
use crate::commands::{status, status_lines};
use crate::config::Config;
use crate::report::{LineView, Report, line_if};
use crate::state::ActiveMeeting;
use crate::time::{Time, clock, clock_text};

verus! {

pub open spec fn nextbase_overview_lines() -> Seq<LineView> {
    seq![
        LineView::Heading("Nextbase CLI"@),
        LineView::Blank,
        LineView::Info("wisper   Hold-to-record dictation, paste, polish, spell fix"@),
        LineView::Blank,
        LineView::Heading("Usage"@),
        LineView::Info("nextbase wisper <command>   Run a Wisper command"@),
        LineView::Info("wisper <command>            Same thing, direct"@),
        LineView::Blank,
        LineView::Hint("Start here: nextbase wisper setup"@),
    ]
}

/// The tools, and where to start.
pub fn nextbase_overview() -> (r: Report)
    ensures
        r@ == nextbase_overview_lines(),
{
    let mut r = Report::new();
    r.heading("Nextbase CLI");
    r.blank();
    r.info("wisper   Hold-to-record dictation, paste, polish, spell fix");
    r.blank();
    r.heading("Usage");
    r.info("nextbase wisper <command>   Run a Wisper command");
    r.info("wisper <command>            Same thing, direct");
    r.blank();
    r.hint("Start here: nextbase wisper setup");
    assert(r@ =~= nextbase_overview_lines());
    r
}

pub open spec fn wisper_commands_lines() -> Seq<LineView> {
    seq![
        LineView::Blank,
        LineView::Heading("Common commands"@),
        LineView::Info("wisper setup       First-time setup"@),
        LineView::Info("wisper listen      Start the background listener"@),
        LineView::Info("wisper shortcuts   Show configured shortcuts"@),
        LineView::Info("wisper history     Recent transcripts"@),
        LineView::Blank,
        LineView::Hint("Full list: wisper --help"@),
    ]
}

/// The setup, and the few commands that people reach for.
pub fn wisper_overview(config: &Config) -> (r: Report)
    ensures
        r@ == status_lines(*config) + wisper_commands_lines(),
{
    let mut r = status(config);
    let ghost setup = r@;
    r.blank();
    r.heading("Common commands");
    r.info("wisper setup       First-time setup");
    r.info("wisper listen      Start the background listener");
    r.info("wisper shortcuts   Show configured shortcuts");
    r.info("wisper history     Recent transcripts");
    r.blank();
    r.hint("Full list: wisper --help");
    assert(r@ =~= setup + wisper_commands_lines());
    r
}

/// The meeting in progress, with how long it has been recording.
pub open spec fn meeting_lines(active: Option<&ActiveMeeting>, elapsed: Time) -> Seq<LineView> {
    match active {
        Some(m) => seq![
            LineView::Field("Active meeting"@, m.id@),
            LineView::Field("State"@, m.phase.name()),
        ] + line_if(
            m.phase.capturing(),
            LineView::Field("Elapsed"@, clock_text(elapsed as int)),
        ),
        None => seq![LineView::Info("No meeting in progress."@)],
    }
}

pub open spec fn meeting_commands_lines() -> Seq<LineView> {
    seq![
        LineView::Blank,
        LineView::Heading("Common commands"@),
        LineView::Info("nbmeet start      Start recording"@),
        LineView::Info("nbmeet stop       Stop, transcribe, summarise"@),
        LineView::Info("nbmeet doctor     Check microphone, system audio and keys"@),
        LineView::Info("nbmeet history    Past meetings"@),
        LineView::Info("nbmeet audio <f>  Transcribe a file or URL you already have"@),
        LineView::Info("nbmeet open       Dashboard, with start and stop buttons"@),
        LineView::Blank,
        LineView::Hint("Full list: nbmeet --help"@),
    ]
}

pub fn meeting_overview(active: Option<&ActiveMeeting>, elapsed: Time) -> (r: Report)
    ensures
        r@ == seq![LineView::Heading("Meeting Agent"@)] + meeting_lines(active, elapsed)
            + meeting_commands_lines(),
{
    let mut r = Report::new();
    r.heading("Meeting Agent");
    match active {
        Some(m) => {
            r.field("Active meeting", m.id.as_str());
            r.field("State", m.phase.as_str());
            if m.phase.is_capturing() {
                r.field("Elapsed", clock(elapsed).as_str());
            }
        },
        None => {
            r.info("No meeting in progress.");
        },
    }
    assert(r@ =~= seq![LineView::Heading("Meeting Agent"@)] + meeting_lines(active, elapsed));
    let ghost before = r@;
    r.blank();
    r.heading("Common commands");
    r.info("nbmeet start      Start recording");
    r.info("nbmeet stop       Stop, transcribe, summarise");
    r.info("nbmeet doctor     Check microphone, system audio and keys");
    r.info("nbmeet history    Past meetings");
    r.info("nbmeet audio <f>  Transcribe a file or URL you already have");
    r.info("nbmeet open       Dashboard, with start and stop buttons");
    r.blank();
    r.hint("Full list: nbmeet --help");
    assert(r@ =~= before + meeting_commands_lines());
    r
}

} // verus!
