//! Optional audio ducking: drop system volume while recording, restore after.
use vstd::prelude::*;
use crate::config::{Config, DEFAULT_DUCKING_VOLUME};
use crate::text::same;

verus! {

/// The volume before ducking, as a percentage, while it is ducked, and the volume it was
/// lowered to. They are remembered rather than read back at restore time: by then the volume
/// has already been changed.
#[derive(Debug)]
pub struct Ducking {
    pub previous: Option<u8>,
    pub lowered: Option<u8>,
}

/// A volume to set, and the volume that it is set from.
#[derive(Debug, Clone, Copy, PartialEq, Eq, Structural)]
pub struct VolumeChange {
    pub from: u8,
    pub to: u8,
}

pub open spec fn has_volume_control(target_os: Seq<char>) -> bool {
    target_os == "macos"@ || target_os == "windows"@
}

pub fn is_supported(target_os: &str) -> (r: bool)
    ensures
        r == has_volume_control(target_os@),
{
    same(target_os, "macos") || same(target_os, "windows")
}

/// The volume to duck to: as set, or the default, and never above all.
pub open spec fn duck_volume(volume: Option<u8>) -> u8 {
    match volume {
        Some(v) => if v > 100 {
            100
        } else {
            v
        },
        None => DEFAULT_DUCKING_VOLUME,
    }
}

pub open spec fn ducks(config: Config, target_os: Seq<char>) -> bool {
    config.audio_ducking == Some(true) && has_volume_control(target_os)
}

/// The volume that a change starts from: the one it was lowered to, the one that is read, or,
/// where none can be, the one that is wanted.
pub open spec fn level_now(lowered: Option<u8>, now: Option<u8>, wanted: u8) -> u8 {
    match lowered {
        Some(v) => v,
        None => match now {
            Some(v) => v,
            None => wanted,
        },
    }
}

impl Ducking {
    pub fn new() -> (r: Ducking)
        ensures
            r.previous is None,
            r.lowered is None,
    {
        Ducking { previous: None, lowered: None }
    }

    /// The change that a start makes.
    pub open spec fn lowering(self, config: Config, target_os: Seq<char>, now: Option<u8>) -> Option<
        VolumeChange,
    > {
        let target = duck_volume(config.audio_ducking_volume);
        if ducks(config, target_os) {
            Some(VolumeChange { from: level_now(self.lowered, now, target), to: target })
        } else {
            None
        }
    }

    /// What is remembered behind a start.
    pub open spec fn lowered_by(self, config: Config, target_os: Seq<char>, now: Option<u8>) -> Ducking {
        if ducks(config, target_os) {
            Ducking {
                previous: if self.previous is None {
                    now
                } else {
                    self.previous
                },
                lowered: Some(duck_volume(config.audio_ducking_volume)),
            }
        } else {
            self
        }
    }

    /// The change that sets the volume back.
    pub open spec fn raising(self, target_os: Seq<char>) -> Option<VolumeChange> {
        if has_volume_control(target_os) && self.previous is Some {
            Some(
                VolumeChange {
                    from: level_now(self.lowered, None, self.previous->0),
                    to: self.previous->0,
                },
            )
        } else {
            None
        }
    }

    /// What is remembered behind setting the volume back: nothing.
    pub open spec fn raised(self, target_os: Seq<char>) -> Ducking {
        if has_volume_control(target_os) {
            Ducking { previous: None, lowered: None }
        } else {
            self
        }
    }

    /// The volume to set when a recording starts, given the volume now. Only the first of
    /// several starts remembers it.
    pub fn start(&mut self, config: &Config, target_os: &str, now: Option<u8>) -> (r: Option<
        VolumeChange,
    >)
        ensures
            ({
                let target = duck_volume(config.audio_ducking_volume);
                if ducks(*config, target_os@) {
                    &&& r == Some(
                        (VolumeChange {
                            from: level_now(old(self).lowered, now, target),
                            to: target,
                        }),
                    )
                    &&& final(self).previous == if old(self).previous is None {
                        now
                    } else {
                        old(self).previous
                    }
                    &&& final(self).lowered == Some(target)
                } else {
                    r is None && *final(self) == *old(self)
                }
            }),
            r == old(self).lowering(*config, target_os@, now),
            *final(self) == old(self).lowered_by(*config, target_os@, now),
    {
        if config.audio_ducking != Some(true) || !is_supported(target_os) {
            return None;
        }
        if self.previous.is_none() {
            self.previous = now;
        }
        let target: u8 = match config.audio_ducking_volume {
            Some(v) => if v > 100 {
                100
            } else {
                v
            },
            None => DEFAULT_DUCKING_VOLUME,
        };
        let from: u8 = match self.lowered {
            Some(v) => v,
            None => match now {
                Some(v) => v,
                None => target,
            },
        };
        self.lowered = Some(target);
        Some(VolumeChange { from, to: target })
    }

    /// The volume to set back, once: the one from before ducking.
    pub fn restore(&mut self, target_os: &str) -> (r: Option<VolumeChange>)
        ensures
            if has_volume_control(target_os@) {
                &&& match old(self).previous {
                    Some(v) => r == Some(
                        (VolumeChange { from: level_now(old(self).lowered, None, v), to: v }),
                    ),
                    None => r is None,
                }
                &&& final(self).previous is None
                &&& final(self).lowered is None
            } else {
                r is None && *final(self) == *old(self)
            },
            r == old(self).raising(target_os@),
            *final(self) == old(self).raised(target_os@),
    {
        if !is_supported(target_os) {
            return None;
        }
        let previous = self.previous.take();
        let lowered = self.lowered.take();
        match previous {
            Some(v) => {
                let from: u8 = match lowered {
                    Some(low) => low,
                    None => v,
                };
                Some(VolumeChange { from, to: v })
            },
            None => None,
        }
    }
}

/// Where the volume can only be nudged with keys: the key, and how often it is pressed.
#[derive(Debug, Clone, Copy, PartialEq, Eq, Structural)]
pub enum VolumeKeys {
    Down(u8),
    Up(u8),
}

/// A press changes the volume by two percent, and fifty presses by all of it.
pub open spec fn press_count(distance: int) -> int {
    if distance / 2 > 50 {
        50
    } else {
        distance / 2
    }
}

/// The presses that make a change: down to duck, and up to restore.
pub open spec fn presses_for(change: VolumeChange) -> VolumeKeys {
    if change.to < change.from {
        VolumeKeys::Down(press_count(change.from - change.to) as u8)
    } else {
        VolumeKeys::Up(press_count(change.to - change.from) as u8)
    }
}

pub fn volume_keys(change: VolumeChange) -> (r: VolumeKeys)
    ensures
        r == presses_for(change),
{
    let lower = change.to < change.from;
    let distance: u8 = if lower {
        change.from - change.to
    } else {
        change.to - change.from
    };
    let half: u8 = distance / 2;
    let count: u8 = if half > 50 {
        50
    } else {
        half
    };
    if lower {
        VolumeKeys::Down(count)
    } else {
        VolumeKeys::Up(count)
    }
}

/// Restoring presses the other key as often as ducking pressed the first.
pub proof fn restoring_takes_ducking_back(loud: u8, quiet: u8)
    requires
        quiet < loud,
    ensures
        ({
            let ducked = presses_for(VolumeChange { from: loud, to: quiet });
            let restored = presses_for(VolumeChange { from: quiet, to: loud });
            &&& ducked is Down
            &&& restored is Up
            &&& restored->Up_0 == ducked->Down_0
        }),
{
}

/// The volume to duck to is the one that was set, within a hundred per cent.
pub proof fn ducking_goes_to_the_volume_set(volume: u8)
    ensures
        volume <= 100 ==> duck_volume(Some(volume)) == volume,
        duck_volume(Some(volume)) <= 100,
        duck_volume(None) == 35,
{
}

/// The volume is ducked exactly where that was asked for and can be done.
pub proof fn ducking_is_asked_for(config: Config, target_os: Seq<char>)
    ensures
        ducks(config, target_os) <==> config.audio_ducking is Some && config.audio_ducking->0 && (
        target_os == "macos"@ || target_os == "windows"@),
{
}

/// The keys that are pressed move the volume as far as asked, in steps of two per cent and no
/// further.
pub proof fn presses_cover_the_distance(change: VolumeChange)
    requires
        change.from <= 100,
        change.to <= 100,
    ensures
        match presses_for(change) {
            VolumeKeys::Down(n) => change.to < change.from && 0 <= change.from - change.to - 2 * n
                <= 1,
            VolumeKeys::Up(n) => change.to >= change.from && 0 <= change.to - change.from - 2 * n
                <= 1,
        },
{
}

/// The level to restore from is the one that was set while ducking, and else the one that is heard
/// now.
pub proof fn the_level_set_comes_before_the_level_heard(lowered: Option<u8>, now: Option<u8>, wanted: u8)
    ensures
        lowered is Some ==> level_now(lowered, now, wanted) == lowered->0,
        lowered is None && now is Some ==> level_now(lowered, now, wanted) == now->0,
        lowered is None && now is None ==> level_now(lowered, now, wanted) == wanted,
{
}

/// However often a recording is started, what is set back is the volume from before the first
/// start, from where the last one left it, and it is set back once.
pub proof fn the_volume_from_before_comes_back(
    first: Config,
    again: Config,
    target_os: Seq<char>,
    before: u8,
    meanwhile: Option<u8>,
)
    requires
        ducks(first, target_os),
        ducks(again, target_os),
    ensures
        ({
            let fresh = Ducking { previous: None, lowered: None };
            let once = fresh.lowered_by(first, target_os, Some(before));
            let twice = once.lowered_by(again, target_os, meanwhile);
            let to = duck_volume(again.audio_ducking_volume);
            &&& fresh.lowering(first, target_os, Some(before)) == Some(
                VolumeChange { from: before, to: duck_volume(first.audio_ducking_volume) },
            )
            &&& once.raising(target_os) == Some(
                VolumeChange { from: duck_volume(first.audio_ducking_volume), to: before },
            )
            &&& twice.raising(target_os) == Some(VolumeChange { from: to, to: before })
            &&& once.raised(target_os) == fresh
            &&& twice.raised(target_os) == fresh
            &&& fresh.raising(target_os) is None
        }),
{
}

} // verus!
