use nextbase::audio::Levels;
use nextbase::capture::{
    check_options, encoding_of, linux_monitor_source, mix_step, needs_resampler, opened_sources,
    pick_config, probe, system_audio_status, take_available, take_turn, track_files, trim_backlog,
    CaptureOptions, Heard, MixStep, Opening, SampleEncoding, SourceKind, SystemAudioStatus,
    SystemEvidence,
};
use nextbase::wav::{info, read_frames, slice, split, to_wav, WavError, TARGET_SAMPLE_RATE};
use nextbase::window::pick_energy_window;
use std::collections::VecDeque;

const SECOND: u64 = 1_000_000_000;

/// `sections` is (seconds, amplitude) so a test can place loud speech after a silent lead-in.
fn test_wav(sections: &[(u32, i16)]) -> Vec<u8> {
    let mut samples: Vec<i16> = Vec::new();
    for (seconds, amplitude) in sections {
        for index in 0..(*seconds * TARGET_SAMPLE_RATE) {
            samples.push(if index % 2 == 0 { *amplitude } else { -*amplitude });
        }
    }
    to_wav(TARGET_SAMPLE_RATE, 1, &samples).unwrap()
}

#[test]
fn info_reports_duration_from_the_header() {
    let details = info(&test_wav(&[(3, 1000)])).unwrap();
    assert_eq!(details.sample_rate, TARGET_SAMPLE_RATE);
    assert_eq!(details.channels, 1);
    assert_eq!(details.frames, 3 * TARGET_SAMPLE_RATE as u64);
    assert_eq!(details.duration(), 3 * nextbase::time::SECOND);
}

#[test]
fn a_slice_has_the_requested_length() {
    let source = test_wav(&[(30, 800)]);
    let (bytes, details) = slice(&source, 10 * SECOND, 5 * SECOND).unwrap();
    assert_eq!(details.frames, 5 * TARGET_SAMPLE_RATE as u64);
    assert_eq!(info(&bytes).unwrap().frames, details.frames);
}

#[test]
fn a_slice_past_the_end_is_clamped_not_rejected() {
    let source = test_wav(&[(10, 800)]);
    let (_, details) = slice(&source, 8 * SECOND, 30 * SECOND).unwrap();
    assert_eq!(details.frames, 2 * TARGET_SAMPLE_RATE as u64);
}

#[test]
fn audio_within_the_limit_is_not_split() {
    let source = test_wav(&[(4, 500)]);
    assert!(split(&source, "full", 10 * SECOND).unwrap().is_none());
}

#[test]
fn a_long_recording_splits_into_parts_that_add_up() {
    let source = test_wav(&[(25, 500)]);
    let parts = split(&source, "full", 10 * SECOND).unwrap().unwrap();
    assert_eq!(parts.len(), 3);

    let total: u64 = parts.iter().map(|p| info(&p.bytes).unwrap().frames).sum();
    assert_eq!(total, 25 * TARGET_SAMPLE_RATE as u64);
    for part in &parts {
        assert!(info(&part.bytes).unwrap().duration() <= 10 * nextbase::time::SECOND);
    }
    assert_eq!(parts[0].name, "full-part01.wav");
}

#[test]
fn the_sample_window_skips_a_silent_lead_in() {
    let source = test_wav(&[(60, 2), (40, 6000)]);
    let window = pick_energy_window(&source, 20 * SECOND, 30 * SECOND).unwrap();
    assert!(
        window.start >= 60 * SECOND,
        "picked {}us, expected the loud section at 60s+",
        window.start
    );
    let rms = (window.energy as f64 / window.count as f64).sqrt() / 32_767.0;
    assert!(rms > 0.1, "rms was {rms}");
}

#[test]
fn a_recording_shorter_than_the_window_uses_all_of_it() {
    let source = test_wav(&[(8, 4000)]);
    let window = pick_energy_window(&source, 180 * SECOND, 30 * SECOND).unwrap();
    assert_eq!(window.start, 0);
    assert!(window.length.abs_diff(8 * SECOND) < 10_000_000);
}

#[test]
fn the_lead_in_is_kept_when_skipping_would_leave_no_window() {
    let source = test_wav(&[(40, 3000)]);
    let window = pick_energy_window(&source, 20 * SECOND, 30 * SECOND).unwrap();
    assert!(window.start <= 20 * SECOND);
    assert!(window.length.abs_diff(20 * SECOND) < 10_000_000);
}

#[test]
fn a_window_near_the_end_is_moved_back_to_be_full() {
    let source = test_wav(&[(30, 10), (15, 3000)]);
    let window = pick_energy_window(&source, 20 * SECOND, 30 * SECOND).unwrap();
    assert_eq!(window.start, 25 * SECOND);
    assert_eq!(window.length, 20 * SECOND);
    assert_eq!(window.count, 20 * 16_000);
    let quiet = 5 * 16_000 * 10 * 10;
    assert_eq!(window.energy, quiet + 15 * 16_000 * 3000 * 3000);
}

#[test]
fn each_kind_of_wav_error_comes_from_its_own_input() {
    assert!(info(b"not a wav").is_none());
    assert!(matches!(read_frames(b"not a wav"), Err(WavError::Unreadable)));
    let short = test_wav(&[(1, 5)]);
    assert!(matches!(
        slice(&short, 5 * SECOND, SECOND),
        Err(WavError::EmptySlice)
    ));
    assert!(matches!(split(&short, "a", 0), Err(WavError::ZeroSplit)));
    let silent = to_wav(TARGET_SAMPLE_RATE, 1, &[]).unwrap();
    assert!(pick_energy_window(&silent, SECOND, 0).is_err());
    assert!(WavError::Unreadable.message("a.wav").contains("a.wav"));
    let read = read_frames(&short).unwrap();
    assert_eq!(read.samples.len(), 16_000);
    assert_eq!(read.samples[1], -5);
}

#[test]
fn a_short_source_is_padded_so_the_mix_never_shortens() {
    let mut buffer = VecDeque::from(vec![0.5f32, 0.5]);
    let mut out = Vec::new();
    take_available(&mut buffer, 5, 0.0, &mut out);
    assert_eq!(out, vec![0.5, 0.5, 0.0, 0.0, 0.0]);
}

#[test]
fn the_clock_source_takes_everything_available_without_padding() {
    let mut buffer = VecDeque::from(vec![0.1f32, 0.2, 0.3]);
    let mut out = Vec::new();
    take_available(&mut buffer, usize::MAX, 0.0, &mut out);
    assert_eq!(out, vec![0.1, 0.2, 0.3]);
    assert!(buffer.is_empty());
}

#[test]
fn a_source_that_runs_ahead_is_trimmed_to_bound_drift() {
    let mut buffer = (0..100).map(|i| i as f32).collect::<VecDeque<_>>();
    trim_backlog(&mut buffer, 10);
    assert_eq!(buffer.len(), 10);
    assert_eq!(buffer.front().copied(), Some(90.0));
}

#[test]
fn a_source_within_the_backlog_limit_is_left_alone() {
    let mut buffer = VecDeque::from(vec![1.0f32, 2.0]);
    trim_backlog(&mut buffer, 10);
    assert_eq!(buffer.len(), 2);
}

#[test]
fn recording_with_every_source_disabled_is_refused() {
    let options = CaptureOptions {
        mic: false,
        system: false,
        ..Default::default()
    };
    let error = check_options(&options).unwrap_err();
    assert!(error.contains("nothing to record"), "{error}");
}

#[test]
fn matching_rates_need_no_resampler() {
    assert_eq!(needs_resampler(16_000, 16_000), Ok(false));
    assert_eq!(needs_resampler(48_000, 16_000), Ok(true));
}

#[test]
fn a_zero_rate_is_an_error_rather_than_a_division_by_zero() {
    assert!(needs_resampler(0, 16_000).is_err());
}

#[test]
fn a_turn_of_the_mix_follows_the_clock_source() {
    let mut clock = VecDeque::from(vec![1i32, 2, 3]);
    let others = vec![VecDeque::from(vec![9i32])];
    let (turn, rest) = take_turn(&mut clock, others, 0, 10);
    assert_eq!(turn.clock, vec![1, 2, 3]);
    assert_eq!(turn.others, vec![vec![9, 0, 0]]);
    assert!(clock.is_empty() && rest[0].is_empty());
    assert!(matches!(mix_step(3, false), MixStep::Write));
    assert!(matches!(mix_step(0, false), MixStep::Wait));
    assert!(matches!(mix_step(0, true), MixStep::Finish));
}

#[test]
fn one_source_that_opened_is_enough() {
    let sources = opened_sources(&Opening::Opened, &Opening::Refused("no display".to_string())).unwrap();
    assert_eq!(sources.open.len(), 1);
    assert_eq!(sources.problems.len(), 1);
    assert!(opened_sources(
        &Opening::Refused("busy".to_string()),
        &Opening::Refused("no display".to_string())
    )
    .is_err());
    let options = CaptureOptions {
        keep_tracks: true,
        ..Default::default()
    };
    assert_eq!(track_files(&options, &sources.open).len(), 1);
}

#[test]
fn formats_and_rates_are_picked_by_what_is_offered() {
    assert!(matches!(encoding_of(3, 32), Ok(SampleEncoding::Float32)));
    assert!(matches!(encoding_of(1, 16), Ok(SampleEncoding::Int16)));
    assert!(matches!(encoding_of(1, 32), Ok(SampleEncoding::Int32)));
    assert!(encoding_of(7, 8).is_err());
    assert_eq!(SampleEncoding::Int16.width(), 2);
    assert_eq!(pick_config(&vec![(44_100, 48_000), (8_000, 48_000)]), Some(1));
    assert_eq!(pick_config(&Vec::new()), None);
}

#[test]
fn system_audio_is_ready_missing_or_in_need_of_permission() {
    let monitors = SystemEvidence::Inputs {
        devices: vec!["Mic".to_string(), "Monitor of Built-in".to_string()],
    };
    assert!(matches!(
        system_audio_status(&monitors),
        SystemAudioStatus::Ready
    ));
    assert_eq!(
        linux_monitor_source(&vec!["Monitor of Built-in".to_string()]).as_deref(),
        Some("Monitor of Built-in")
    );
    assert!(matches!(
        system_audio_status(&SystemEvidence::Inputs { devices: Vec::new() }),
        SystemAudioStatus::Unavailable { .. }
    ));
    assert!(matches!(
        system_audio_status(&SystemEvidence::Displays {
            permitted: false,
            displays: Ok(1)
        }),
        SystemAudioStatus::PermissionRequired { .. }
    ));
}

#[test]
fn a_probe_that_heard_nothing_still_opened() {
    let quiet = Heard {
        last: Levels::default(),
        whole: Levels::default(),
        samples: 0,
    };
    let result = probe(SourceKind::Mic, Some("Mic".to_string()), Ok(quiet));
    assert!(result.opened && !result.heard_something());
    let failed = probe(SourceKind::System, None, Err("busy".to_string()));
    assert!(!failed.opened);
    assert_eq!(failed.error.as_deref(), Some("busy"));
}
