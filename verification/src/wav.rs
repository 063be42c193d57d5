//! Reading, slicing and splitting 16-bit PCM WAV files.
//!
//! Every operation here is a sample-exact copy, so a sample cut for the quality gate tests
//! the recording itself rather than a re-encode.
use vstd::prelude::*;
use crate::number::{numbers_are_told_apart, to_two_digits, two_digits};
use crate::time::{SECOND, Time};

verus! {

/// What the recorder produces and what Sarvam accepts natively.
pub const TARGET_SAMPLE_RATE: u32 = 16_000;

// ---------------------------------------------------------------------- WAV files

#[verifier::external_type_specification]
#[verifier::external_body]
pub struct ExWavError(hound::Error);

/// What the header of a WAV file tells. `len` counts the samples of all channels.
#[derive(Debug, Clone, Copy, PartialEq, Eq, Structural)]
pub struct WavHeader {
    pub sample_rate: u32,
    pub channels: u16,
    pub bits_per_sample: u16,
    pub is_int: bool,
    pub len: u32,
}

/// What `hound::WavReader::new` reads out of the header of a file, where it is a WAV file.
pub uninterp spec fn wav_header(bytes: Seq<u8>) -> Option<WavHeader>;

/// What `hound::WavReader::into_samples` gives of a file, where every sample can be read as
/// an `i16`.
pub uninterp spec fn wav_samples(bytes: Seq<u8>) -> Option<Seq<i16>>;

/// `hound::WavReader::new` with `spec` and `len`. The outcome depends on the bytes alone. A
/// file without channels is refused, and so is one whose last frame is not whole.
#[verifier::external_body]
fn open_wav(bytes: &[u8]) -> (r: Result<WavHeader, hound::Error>)
    ensures
        match r {
            Ok(header) => wav_header(bytes@) == Some(header) && header.channels > 0 && header.len
                % (header.channels as u32) == 0,
            Err(_) => wav_header(bytes@) is None,
        },
{
    let reader = hound::WavReader::new(bytes)?;
    Ok(
        WavHeader {
            sample_rate: reader.spec().sample_rate,
            channels: reader.spec().channels,
            bits_per_sample: reader.spec().bits_per_sample,
            is_int: reader.spec().sample_format == hound::SampleFormat::Int,
            len: reader.len(),
        },
    )
}

/// `hound::WavReader::new` and `into_samples`. The outcome depends on the bytes alone. All
/// samples that the header counts are there, or none. The bytes per second, which the
/// header repeats, fit in 32 bits, and so does the number of bytes of 16-bit samples.
#[verifier::external_body]
fn read_samples(bytes: &[u8]) -> (r: Result<Vec<i16>, hound::Error>)
    ensures
        match r {
            Ok(samples) => {
                &&& wav_samples(bytes@) == Some(samples@)
                &&& wav_header(bytes@) is Some
                &&& samples@.len() == wav_header(bytes@)->0.len
                &&& wav_header(bytes@)->0.bits_per_sample == 16 && samples@.len() > 0
                    ==> wav_header(bytes@)->0.sample_rate * wav_header(bytes@)->0.channels * 2
                    <= u32::MAX && samples@.len() * 2 <= u32::MAX
            },
            Err(_) => wav_samples(bytes@) is None,
        },
{
    hound::WavReader::new(bytes)?.into_samples::<i16>().collect()
}

/// How many bytes of a WAV file its length counts besides those of the samples. The header is
/// longer with more than two channels.
pub open spec fn header_bytes(channels: u16) -> nat {
    if channels > 2 {
        60
    } else {
        36
    }
}

/// Whether 16-bit samples can be written as a WAV file with this header.
pub open spec fn is_writable(sample_rate: u32, channels: u16, count: nat) -> bool {
    &&& sample_rate > 0
    &&& 0 < channels <= 0x7fff
    &&& sample_rate * channels * 2 <= u32::MAX
    &&& count * 2 + header_bytes(channels) <= u32::MAX
    &&& count % (channels as nat) == 0
}

pub open spec fn header_for(sample_rate: u32, channels: u16, count: nat) -> WavHeader {
    WavHeader { sample_rate, channels, bits_per_sample: 16, is_int: true, len: count as u32 }
}

/// `hound::WavWriter::new` over memory, with `write_sample` for each sample and `finalize`.
/// Within the limits of the format, writing to memory succeeds, and reading the file gives
/// back the header and the samples.
#[verifier::external_body]
fn write_wav(sample_rate: u32, channels: u16, samples: &[i16]) -> (r: Result<
    Vec<u8>,
    hound::Error,
>)
    requires
        is_writable(sample_rate, channels, samples@.len()),
    ensures
        r is Ok,
        wav_header(r->Ok_0@) == Some(header_for(sample_rate, channels, samples@.len())),
        wav_samples(r->Ok_0@) == Some(samples@),
{
    let sample_format = hound::SampleFormat::Int;
    let spec = hound::WavSpec { channels, sample_rate, bits_per_sample: 16, sample_format };
    let mut file = std::io::Cursor::new(Vec::new());
    let mut writer = hound::WavWriter::new(&mut file, spec)?;
    for sample in samples {
        writer.write_sample(*sample)?;
    }
    writer.finalize()?;
    Ok(file.into_inner())
}

/// Makes a WAV file of 16-bit samples. `None` where the format cannot hold them.
pub fn to_wav(sample_rate: u32, channels: u16, samples: &[i16]) -> (r: Option<Vec<u8>>)
    ensures
        match r {
            Some(bytes) => is_writable(sample_rate, channels, samples@.len()) && wav_header(bytes@)
                == Some(header_for(sample_rate, channels, samples@.len())) && wav_samples(bytes@)
                == Some(samples@),
            None => !is_writable(sample_rate, channels, samples@.len()),
        },
{
    if sample_rate == 0 || channels == 0 || channels > 0x7fff {
        return None;
    }
    let rate: u64 = sample_rate as u64;
    let width: u64 = channels as u64;
    proof {
        assert(rate * width <= 0xffff_ffff * 0x7fff) by (nonlinear_arith)
            requires
                rate <= 0xffff_ffff,
                width <= 0x7fff,
        ;
    }
    if rate * width * 2 > u32::MAX as u64 {
        return None;
    }
    let most: u64 = if channels > 2 {
        0x7fff_ffe1
    } else {
        0x7fff_ffed
    };
    if samples.len() as u64 > most || samples.len() % channels as usize != 0 {
        return None;
    }
    match write_wav(sample_rate, channels, samples) {
        Ok(bytes) => Some(bytes),
        Err(_) => None,
    }
}

// ------------------------------------------------------------------------- header

#[derive(Debug, Clone, Copy, PartialEq, Eq, Structural)]
pub struct WavInfo {
    pub sample_rate: u32,
    pub channels: u16,
    pub bits_per_sample: u16,
    pub frames: u64,
}

/// How long `frames` last, rounded down.
pub open spec fn frames_length(frames: nat, sample_rate: u32) -> int {
    if sample_rate == 0 {
        0
    } else {
        frames * SECOND / (sample_rate as int)
    }
}

/// No file lasts longer than this.
pub const LONGEST: Time = 18_446_744_073_709_551_615_000_000_000_000_000_000;

impl WavInfo {
    pub open spec fn length(self) -> int {
        frames_length(self.frames as nat, self.sample_rate)
    }

    pub fn duration(&self) -> (r: Time)
        ensures
            r == self.length(),
            0 <= r <= LONGEST,
    {
        if self.sample_rate == 0 {
            return 0;
        }
        let total: i128 = self.frames as i128 * SECOND;
        let rate: i128 = self.sample_rate as i128;
        let length: i128 = total / rate;
        proof {
            assert(0 <= length <= total) by (nonlinear_arith)
                requires
                    length == total / rate,
                    total >= 0,
                    rate > 0,
            ;
        }
        length
    }
}

/// What a header says of the audio.
pub open spec fn info_of(header: WavHeader) -> WavInfo {
    WavInfo {
        sample_rate: header.sample_rate,
        channels: header.channels,
        bits_per_sample: header.bits_per_sample,
        frames: (header.len / (header.channels as u32)) as u64,
    }
}

/// Reads the header and frame count. `None` where the bytes are no WAV file.
pub fn info(bytes: &[u8]) -> (r: Option<WavInfo>)
    ensures
        match r {
            Some(i) => wav_header(bytes@) is Some && i == info_of(wav_header(bytes@)->0),
            None => wav_header(bytes@) is None,
        },
{
    match open_wav(bytes) {
        Ok(header) => Some(
            WavInfo {
                sample_rate: header.sample_rate,
                channels: header.channels,
                bits_per_sample: header.bits_per_sample,
                frames: (header.len / header.channels as u32) as u64,
            },
        ),
        Err(_) => None,
    }
}

/// Why audio cannot be cut.
#[derive(Debug, Clone, Copy, PartialEq, Eq, Structural)]
pub enum WavError {
    /// The bytes are no WAV file, or its samples cannot be read.
    Unreadable,
    /// Not 16-bit PCM.
    NotPcm,
    ZeroRate,
    EmptySlice,
    ZeroSplit,
    NoAudio,
    /// More than one WAV file holds.
    TooLarge,
}

impl WavError {
    pub open spec fn text(self, name: Seq<char>) -> Seq<char> {
        match self {
            WavError::Unreadable => "Could not read audio file: "@ + name,
            WavError::NotPcm => name + " is not 16-bit PCM, so it cannot be sliced here."@,
            WavError::ZeroRate => name + " reports a zero sample rate."@,
            WavError::EmptySlice => "The requested slice of "@ + name + " contains no audio."@,
            WavError::ZeroSplit => "A zero-length split was requested."@,
            WavError::NoAudio => name + " contains no audio to sample."@,
            WavError::TooLarge => name + " is too large for one WAV file."@,
        }
    }

    /// The sentence shown to the user, with the name of the file.
    pub fn message(&self, name: &str) -> (r: String)
        ensures
            r@ == self.text(name@),
    {
        match self {
            WavError::Unreadable => "Could not read audio file: ".to_owned().concat(name),
            WavError::NotPcm => name.to_owned().concat(
                " is not 16-bit PCM, so it cannot be sliced here.",
            ),
            WavError::ZeroRate => name.to_owned().concat(" reports a zero sample rate."),
            WavError::EmptySlice => "The requested slice of ".to_owned().concat(name).concat(
                " contains no audio.",
            ),
            WavError::ZeroSplit => "A zero-length split was requested.".to_owned(),
            WavError::NoAudio => name.to_owned().concat(" contains no audio to sample."),
            WavError::TooLarge => name.to_owned().concat(" is too large for one WAV file."),
        }
    }
}

/// 16-bit audio in memory: interleaved samples of all channels, whole frames only.
#[derive(Debug)]
pub struct Audio {
    pub sample_rate: u32,
    pub channels: u16,
    pub samples: Vec<i16>,
}

impl Audio {
    pub open spec fn well_formed(&self) -> bool {
        &&& self.channels > 0
        &&& self.samples@.len() % (self.channels as nat) == 0
        &&& self.samples@.len() <= 0x7fff_ffff
        &&& self.samples@.len() > 0 ==> self.sample_rate * self.channels * 2 <= u32::MAX
    }

    /// Samples of all channels in one second.
    pub open spec fn per_second(&self) -> int {
        self.sample_rate * self.channels
    }
}

/// Whether a file is one whose samples can be cut.
pub open spec fn is_pcm(bytes: Seq<u8>) -> bool {
    wav_header(bytes) is Some && wav_header(bytes)->0.bits_per_sample == 16 && wav_header(
        bytes,
    )->0.is_int
}

/// Whether `audio` is what a file holds.
pub open spec fn is_audio_of(audio: Audio, bytes: Seq<u8>) -> bool {
    &&& audio.well_formed()
    &&& wav_samples(bytes) == Some(audio.samples@)
    &&& wav_header(bytes) is Some
    &&& audio.sample_rate == wav_header(bytes)->0.sample_rate
    &&& audio.channels == wav_header(bytes)->0.channels
}

/// Reads the samples of a 16-bit PCM file.
pub fn read_frames(bytes: &[u8]) -> (r: Result<Audio, WavError>)
    ensures
        match r {
            Ok(audio) => {
                &&& is_pcm(bytes@)
                &&& audio.well_formed()
                &&& wav_samples(bytes@) == Some(audio.samples@)
                &&& audio.samples@.len() == wav_header(bytes@)->0.len
                &&& audio.sample_rate == wav_header(bytes@)->0.sample_rate
                &&& audio.channels == wav_header(bytes@)->0.channels
            },
            Err(e) => {
                ||| e == WavError::Unreadable && (wav_header(bytes@) is None || is_pcm(bytes@)
                    && wav_samples(bytes@) is None)
                ||| e == WavError::NotPcm && wav_header(bytes@) is Some && !is_pcm(bytes@)
            },
        },
{
    let header = match open_wav(bytes) {
        Ok(header) => header,
        Err(_) => {
            return Err(WavError::Unreadable);
        },
    };
    if header.bits_per_sample != 16 || !header.is_int {
        return Err(WavError::NotPcm);
    }
    match read_samples(bytes) {
        Ok(samples) => Ok(
            Audio { sample_rate: header.sample_rate, channels: header.channels, samples },
        ),
        Err(_) => Err(WavError::Unreadable),
    }
}

// ------------------------------------------------------------------------ slicing

/// `n` cut down to whole frames.
pub open spec fn whole_frames(n: nat, channels: u16) -> nat {
    n / (channels as nat) * (channels as nat)
}

pub open spec fn at_most(n: nat, limit: nat) -> nat {
    if n < limit {
        n
    } else {
        limit
    }
}

/// How many samples a length of time holds, rounded down.
pub open spec fn samples_in(t: u64, per_second: int) -> nat {
    (t * per_second / 1_000_000_000) as nat
}

/// The first sample of a slice that starts at `start`, clamped to the audio.
pub open spec fn slice_start(rate: u32, channels: u16, total: nat, start: u64) -> nat {
    whole_frames(at_most(samples_in(start, rate * channels), total), channels)
}

/// Where a slice ends, clamped to the audio.
pub open spec fn slice_end(rate: u32, channels: u16, total: nat, start: u64, length: u64) -> nat {
    whole_frames(
        at_most(
            slice_start(rate, channels, total, start) + samples_in(length, rate * channels),
            total,
        ),
        channels,
    )
}

/// The part of `samples` that a slice takes.
pub open spec fn sliced(
    rate: u32,
    channels: u16,
    samples: Seq<i16>,
    start: u64,
    length: u64,
) -> Seq<i16> {
    let from = slice_start(rate, channels, samples.len(), start);
    let to = slice_end(rate, channels, samples.len(), start, length);
    if from < to {
        samples.subrange(from as int, to as int)
    } else {
        Seq::<i16>::empty()
    }
}

fn per_second_of(audio: &Audio) -> (r: u64)
    ensures
        r == audio.per_second(),
        r <= 0xffff_ffff * 0xffff,
{
    let rate: u64 = audio.sample_rate as u64;
    let width: u64 = audio.channels as u64;
    proof {
        assert(0 <= rate * width <= 0xffff_ffff * 0xffff) by (nonlinear_arith)
            requires
                0 <= rate <= 0xffff_ffff,
                0 <= width <= 0xffff,
        ;
    }
    rate * width
}

/// The number of samples in a length of time, no more than `limit`.
fn clamped_samples(t: u64, per_second: u64, limit: usize) -> (r: usize)
    requires
        per_second <= 0xffff_ffff * 0xffff,
    ensures
        r == at_most(samples_in(t, per_second as int), limit as nat),
{
    proof {
        assert(0 <= t * per_second <= 0xffff_ffff_ffff_ffff * (0xffff_ffff * 0xffff))
            by (nonlinear_arith)
            requires
                0 <= t <= 0xffff_ffff_ffff_ffff,
                0 <= per_second <= 0xffff_ffff * 0xffff,
        ;
    }
    let n: u128 = t as u128 * per_second as u128 / 1_000_000_000;
    if n < limit as u128 {
        n as usize
    } else {
        limit
    }
}

fn round_to_frames(n: usize, channels: u16) -> (r: usize)
    requires
        channels > 0,
    ensures
        r == whole_frames(n as nat, channels),
        r <= n,
        r % (channels as usize) == 0,
{
    let width: usize = channels as usize;
    proof {
        let q: int = n as int / width as int;
        assert(0 <= q * width <= n) by (nonlinear_arith)
            requires
                0 <= n,
                0 < width,
                q == n as int / width as int,
        ;
        assert((q * width) % (width as int) == 0) by (nonlinear_arith)
            requires
                0 < width,
        ;
    }
    n / width * width
}

proof fn sum_at_most(a: nat, b: nat, limit: nat)
    requires
        a <= limit,
    ensures
        at_most(a + b, limit) == at_most(a + at_most(b, (limit - a) as nat), limit),
{
}

fn copy_range(samples: &Vec<i16>, from: usize, to: usize) -> (r: Vec<i16>)
    requires
        from <= to <= samples.len(),
    ensures
        r@ == samples@.subrange(from as int, to as int),
{
    let mut r: Vec<i16> = Vec::new();
    let mut i: usize = from;
    while i < to
        invariant
            from <= i <= to <= samples.len(),
            r@ == samples@.subrange(from as int, i as int),
        decreases to - i,
    {
        r.push(samples[i]);
        i = i + 1;
    }
    r
}

/// The samples of `[start, start + length)`, in nanoseconds.
///
/// A request past the end is clamped rather than rejected: losing a second at the tail is
/// not worth failing a meeting over.
pub fn slice_samples(audio: &Audio, start: u64, length: u64) -> (r: Result<Vec<i16>, WavError>)
    requires
        audio.well_formed(),
    ensures
        ({
            let part = sliced(audio.sample_rate, audio.channels, audio.samples@, start, length);
            match r {
                Ok(samples) => audio.sample_rate > 0 && samples@ == part && part.len() > 0
                    && part.len() <= audio.samples@.len() && part.len() % (audio.channels as nat)
                    == 0,
                Err(e) => if audio.sample_rate == 0 {
                    e == WavError::ZeroRate
                } else {
                    e == WavError::EmptySlice && part.len() == 0
                },
            }
        }),
{
    let per_second = per_second_of(audio);
    if audio.sample_rate == 0 {
        return Err(WavError::ZeroRate);
    }
    let total = audio.samples.len();
    let from = round_to_frames(clamped_samples(start, per_second, total), audio.channels);
    let wanted = clamped_samples(length, per_second, total - from);
    proof {
        sum_at_most(from as nat, samples_in(length, per_second as int), total as nat);
    }
    let to = round_to_frames(from + wanted, audio.channels);
    if to <= from {
        return Err(WavError::EmptySlice);
    }
    proof {
        whole_frames_apart(from as int, to as int, audio.channels as int);
    }
    Ok(copy_range(&audio.samples, from, to))
}

proof fn whole_frames_apart(from: int, to: int, width: int)
    requires
        width > 0,
        from % width == 0,
        to % width == 0,
    ensures
        (to - from) % width == 0,
{
    vstd::arithmetic::div_mod::lemma_sub_mod_noop(to, from, width);
    vstd::arithmetic::div_mod::lemma_small_mod(0, width as nat);
}

proof fn whole_frames_together(a: int, b: int, width: int)
    requires
        width > 0,
        a % width == 0,
        b % width == 0,
    ensures
        (a + b) % width == 0,
{
    vstd::arithmetic::div_mod::lemma_add_mod_noop(a, b, width);
    vstd::arithmetic::div_mod::lemma_small_mod(0, width as nat);
}

/// What a file that can be cut holds, and why another cannot be.
pub open spec fn pcm_error(bytes: Seq<u8>) -> Option<WavError> {
    if wav_header(bytes) is None {
        Some(WavError::Unreadable)
    } else if !is_pcm(bytes) {
        Some(WavError::NotPcm)
    } else if wav_samples(bytes) is None {
        Some(WavError::Unreadable)
    } else {
        None
    }
}

/// Why a slice cannot be cut.
pub open spec fn slice_error(bytes: Seq<u8>, start: u64, length: u64) -> Option<WavError> {
    let header = wav_header(bytes)->0;
    let samples = wav_samples(bytes)->0;
    let part = sliced(header.sample_rate, header.channels, samples, start, length);
    if pcm_error(bytes) is Some {
        pcm_error(bytes)
    } else if header.sample_rate == 0 {
        Some(WavError::ZeroRate)
    } else if part.len() == 0 {
        Some(WavError::EmptySlice)
    } else if !is_writable(header.sample_rate, header.channels, part.len()) {
        Some(WavError::TooLarge)
    } else {
        None
    }
}

/// Cuts `[start, start + length)` out of a file: the new file, and what its header says.
pub fn slice(bytes: &[u8], start: u64, length: u64) -> (r: Result<(Vec<u8>, WavInfo), WavError>)
    ensures
        match r {
            Ok((cut, details)) => {
                let header = wav_header(bytes@)->0;
                let part = sliced(
                    header.sample_rate,
                    header.channels,
                    wav_samples(bytes@)->0,
                    start,
                    length,
                );
                &&& slice_error(bytes@, start, length) is None
                &&& wav_samples(cut@) == Some(part)
                &&& wav_header(cut@) == Some(
                    header_for(header.sample_rate, header.channels, part.len()),
                )
                &&& details == info_of(wav_header(cut@)->0)
            },
            Err(e) => slice_error(bytes@, start, length) == Some(e),
        },
{
    let audio = match read_frames(bytes) {
        Ok(audio) => audio,
        Err(e) => {
            return Err(e);
        },
    };
    let samples = match slice_samples(&audio, start, length) {
        Ok(samples) => samples,
        Err(e) => {
            return Err(e);
        },
    };
    match to_wav(audio.sample_rate, audio.channels, samples.as_slice()) {
        Some(cut) => {
            let frames: u64 = (samples.len() as u32 / audio.channels as u32) as u64;
            let details = WavInfo {
                sample_rate: audio.sample_rate,
                channels: audio.channels,
                bits_per_sample: 16,
                frames,
            };
            Ok((cut, details))
        },
        None => Err(WavError::TooLarge),
    }
}

// ----------------------------------------------------------------------- splitting

/// How many samples one part of at most `max` holds.
pub open spec fn part_size(rate: u32, channels: u16, max: u64) -> int {
    max * rate / 1_000_000_000 * channels
}

/// `samples` in pieces of `size`, the last one as long as what is left.
pub open spec fn chunks(samples: Seq<i16>, size: int) -> Seq<Seq<i16>>
    decreases samples.len(),
{
    if size <= 0 || samples.len() == 0 {
        Seq::<Seq<i16>>::empty()
    } else if samples.len() <= size {
        seq![samples]
    } else {
        seq![samples.take(size)] + chunks(samples.skip(size), size)
    }
}

/// Whether audio of this many frames lasts no longer than `max`.
pub open spec fn fits(frames: nat, rate: u32, max: u64) -> bool {
    rate == 0 || frames * 1_000_000_000 <= max * rate
}

/// The name of a part, counted from one.
pub open spec fn part_name(stem: Seq<char>, index: nat) -> Seq<char> {
    stem + "-part"@ + two_digits(index) + ".wav"@
}

/// One part of a split file.
#[derive(Debug)]
pub struct WavPart {
    pub name: String,
    pub bytes: Vec<u8>,
}

/// Whether the `i`th part is named and filled as it should be.
pub open spec fn is_part(
    part: WavPart,
    stem: Seq<char>,
    header: WavHeader,
    pieces: Seq<Seq<i16>>,
    i: int,
) -> bool {
    &&& part.name@ == part_name(stem, (i + 1) as nat)
    &&& wav_samples(part.bytes@) == Some(pieces[i])
    &&& wav_header(part.bytes@) == Some(
        header_for(header.sample_rate, header.channels, pieces[i].len()),
    )
}

proof fn chunks_from(samples: Seq<i16>, size: int, from: int)
    requires
        size > 0,
        0 <= from < samples.len(),
    ensures
        ({
            let to = if from + size < samples.len() { from + size } else { samples.len() as int };
            chunks(samples.skip(from), size) == seq![samples.subrange(from, to)] + chunks(
                samples.skip(to),
                size,
            )
        }),
{
    let rest = samples.skip(from);
    let to = if from + size < samples.len() { from + size } else { samples.len() as int };
    if rest.len() <= size {
        assert(samples.skip(to).len() == 0);
        assert(rest =~= samples.subrange(from, to));
        assert(seq![rest] + Seq::<Seq<i16>>::empty() =~= seq![rest]);
    } else {
        assert(rest.take(size) =~= samples.subrange(from, to));
        assert(rest.skip(size) =~= samples.skip(to));
    }
}

/// The parts of the samples of a file that is split.
pub open spec fn split_pieces(bytes: Seq<u8>, max: u64) -> Seq<Seq<i16>> {
    let header = wav_header(bytes)->0;
    chunks(wav_samples(bytes)->0, part_size(header.sample_rate, header.channels, max))
}

/// Whether these are the parts of a file, or it fits as it is.
pub open spec fn is_split(bytes: Seq<u8>, stem: Seq<char>, max: u64, r: Option<Vec<WavPart>>) -> bool {
    let header = wav_header(bytes)->0;
    let whole = fits(info_of(header).frames as nat, header.sample_rate, max);
    match r {
        None => wav_header(bytes) is Some && whole,
        Some(parts) => {
            let pieces = split_pieces(bytes, max);
            &&& pcm_error(bytes) is None
            &&& !whole
            &&& part_size(header.sample_rate, header.channels, max) > 0
            &&& parts@.len() == pieces.len()
            &&& forall|i: int|
                0 <= i < parts@.len() ==> is_part(
                    #[trigger] parts@[i],
                    stem,
                    header,
                    pieces,
                    i,
                )
        },
    }
}

/// Splits a file into parts of at most `max` nanoseconds, named `<stem>-part01.wav` and so
/// on. `None` where it fits as it is.
pub fn split(bytes: &[u8], stem: &str, max: u64) -> (r: Result<Option<Vec<WavPart>>, WavError>)
    ensures
        match r {
            Ok(parts) => split_error(bytes@, max) is None && is_split(bytes@, stem@, max, parts),
            Err(e) => split_error(bytes@, max) == Some(e),
        },
{
    let details = match info(bytes) {
        Some(details) => details,
        None => {
            return Err(WavError::Unreadable);
        },
    };
    let rate: u64 = details.sample_rate as u64;
    proof {
        assert(0 <= max * rate <= 0xffff_ffff_ffff_ffff * 0xffff_ffff) by (nonlinear_arith)
            requires
                0 <= max <= 0xffff_ffff_ffff_ffff,
                0 <= rate <= 0xffff_ffff,
        ;
    }
    let limit: u128 = max as u128 * rate as u128;
    if rate == 0 || details.frames as u128 * 1_000_000_000 <= limit {
        return Ok(None);
    }
    let audio = match read_frames(bytes) {
        Ok(audio) => audio,
        Err(e) => {
            return Err(e);
        },
    };
    let frames_per_part: u128 = limit / 1_000_000_000;
    if frames_per_part == 0 {
        assert(part_size(audio.sample_rate, audio.channels, max) == 0) by (nonlinear_arith)
            requires
                max * audio.sample_rate / 1_000_000_000 == 0,
        ;
        return Err(WavError::ZeroSplit);
    }
    let ghost header = wav_header(bytes@)->0;
    let ghost size = part_size(header.sample_rate, header.channels, max);
    let width: usize = audio.channels as usize;
    // A file that does not fit holds more frames than one part, so a part is no longer
    // than the file.
    proof {
        assert(size == frames_per_part * width && size > 0) by (nonlinear_arith)
            requires
                size == (max * header.sample_rate / 1_000_000_000) * header.channels,
                frames_per_part == max * header.sample_rate / 1_000_000_000,
                width == header.channels,
                width > 0,
                frames_per_part > 0,
        ;
        assert(frames_per_part <= details.frames);
        frames_of_whole(audio.samples@.len() as int, width as int);
        assert(frames_per_part * width <= audio.samples@.len()) by (nonlinear_arith)
            requires
                frames_per_part <= details.frames,
                details.frames * width == audio.samples@.len(),
                width > 0,
                frames_per_part >= 0,
        ;
    }
    let per_part: usize = frames_per_part as usize * width;
    let total = audio.samples.len();
    let ghost pieces = chunks(audio.samples@, size);
    let mut parts: Vec<WavPart> = Vec::new();
    let mut from: usize = 0;
    proof {
        assert(audio.samples@.skip(0) =~= audio.samples@);
        assert((per_part as int) % (width as int) == 0) by (nonlinear_arith)
            requires
                per_part == frames_per_part * width,
                width > 0,
        ;
    }
    while from < total
        invariant
            audio.well_formed(),
            total == audio.samples@.len(),
            wav_header(bytes@) == Some(header),
            wav_samples(bytes@) == Some(audio.samples@),
            pcm_error(bytes@) is None,
            header.sample_rate == audio.sample_rate,
            header.channels == audio.channels,
            header.sample_rate > 0,
            !fits(info_of(header).frames as nat, header.sample_rate, max),
            size == part_size(header.sample_rate, header.channels, max),
            width == audio.channels,
            size == per_part,
            0 < per_part <= total,
            (per_part as int) % (width as int) == 0,
            from <= total,
            (from as int) % (width as int) == 0,
            pieces == chunks(audio.samples@, size),
            parts@.len() + chunks(audio.samples@.skip(from as int), size).len() == pieces.len(),
            forall|i: int|
                0 <= i < chunks(audio.samples@.skip(from as int), size).len() ==> pieces[parts@.len()
                    + i] == #[trigger] chunks(audio.samples@.skip(from as int), size)[i],
            forall|i: int|
                0 <= i < parts@.len() ==> is_part(
                    #[trigger] parts@[i],
                    stem@,
                    header,
                    pieces,
                    i,
                ),
            parts@.len() <= from,
            forall|i: int|
                0 <= i < parts@.len() ==> is_writable(
                    header.sample_rate,
                    header.channels,
                    (#[trigger] pieces[i]).len(),
                ),
        decreases total - from,
    {
        let to: usize = if per_part < total - from {
            from + per_part
        } else {
            total
        };
        let chunk = copy_range(&audio.samples, from, to);
        let ghost rest = chunks(audio.samples@.skip(from as int), size);
        let ghost later = chunks(audio.samples@.skip(to as int), size);
        proof {
            chunks_from(audio.samples@, size, from as int);
            assert(rest == seq![chunk@] + later);
            assert(rest[0] == chunk@);
            assert(pieces[parts@.len() as int] == rest[0]);
            if to < total {
                whole_frames_together(from as int, per_part as int, width as int);
            }
            assert((to as int) % (width as int) == 0);
            whole_frames_apart(from as int, to as int, width as int);
        }
        let name = stem.to_owned().concat("-part").concat(
            to_two_digits(parts.len() as u64 + 1).as_str(),
        ).concat(".wav");
        match to_wav(audio.sample_rate, audio.channels, chunk.as_slice()) {
            Some(file) => {
                let ghost count = parts@.len();
                parts.push(WavPart { name, bytes: file });
                proof {
                    assert(is_part(parts@[count as int], stem@, header, pieces, count as int));
                    assert forall|i: int| 0 <= i < later.len() implies pieces[parts@.len() + i]
                        == #[trigger] later[i] by {
                        assert(rest[i + 1] == later[i]);
                        assert(pieces[count + (i + 1)] == rest[i + 1]);
                    }
                }
            },
            None => {
                proof {
                    assert(pieces[parts@.len() as int] == chunk@);
                    assert(!all_writable(header, pieces));
                }
                return Err(WavError::TooLarge);
            },
        }
        from = to;
    }
    assert(audio.samples@.skip(from as int).len() == 0);
    assert(parts@.len() == pieces.len());
    assert(all_writable(header, pieces));
    Ok(Some(parts))
}

proof fn frames_of_whole(n: int, width: int)
    requires
        width > 0,
        n >= 0,
        n % width == 0,
    ensures
        n / width * width == n,
{
    vstd::arithmetic::div_mod::lemma_fundamental_div_mod(n, width);
    vstd::arithmetic::mul::lemma_mul_is_commutative(n / width, width);
}

pub open spec fn all_writable(header: WavHeader, pieces: Seq<Seq<i16>>) -> bool {
    forall|i: int|
        0 <= i < pieces.len() ==> is_writable(
            header.sample_rate,
            header.channels,
            (#[trigger] pieces[i]).len(),
        )
}

/// Why a file cannot be split.
pub open spec fn split_error(bytes: Seq<u8>, max: u64) -> Option<WavError> {
    let header = wav_header(bytes)->0;
    let size = part_size(header.sample_rate, header.channels, max);
    if wav_header(bytes) is None {
        Some(WavError::Unreadable)
    } else if fits(info_of(header).frames as nat, header.sample_rate, max) {
        None
    } else if pcm_error(bytes) is Some {
        pcm_error(bytes)
    } else if size == 0 {
        Some(WavError::ZeroSplit)
    } else if !all_writable(header, chunks(wav_samples(bytes)->0, size)) {
        Some(WavError::TooLarge)
    } else {
        None
    }
}

// --------------------------------------------------------------------------- laws

/// The parts put one after another are the whole: no sample is lost or made up.
pub proof fn parts_add_up(samples: Seq<i16>, size: int)
    requires
        size > 0,
    ensures
        chunks(samples, size).flatten() == samples,
    decreases samples.len(),
{
    if samples.len() == 0 {
        assert(chunks(samples, size).flatten() =~= samples);
    } else if samples.len() <= size {
        chunks(samples, size).lemma_flatten_one_element();
    } else {
        let rest = chunks(samples.skip(size), size);
        parts_add_up(samples.skip(size), size);
        let all = chunks(samples, size);
        assert(all.first() == samples.take(size));
        assert(all.drop_first() =~= rest);
        assert(samples =~= samples.take(size) + samples.skip(size));
    }
}

/// No part is longer than the limit, and none is empty.
pub proof fn parts_stay_within_the_limit(samples: Seq<i16>, size: int, i: int)
    requires
        size > 0,
        0 <= i < chunks(samples, size).len(),
    ensures
        0 < chunks(samples, size)[i].len() <= size,
    decreases samples.len(),
{
    if samples.len() > size {
        if i > 0 {
            let rest = chunks(samples.skip(size), size);
            parts_stay_within_the_limit(samples.skip(size), size, i - 1);
            assert(chunks(samples, size)[i] == rest[i - 1]);
        }
    }
}

/// A part of the largest size lasts no longer than what was asked for.
pub proof fn a_part_lasts_no_longer_than_asked(rate: u32, channels: u16, max: u64)
    requires
        channels > 0,
        rate > 0,
    ensures
        fits((part_size(rate, channels, max) / (channels as int)) as nat, rate, max),
{
    let frames = max * rate / 1_000_000_000;
    assert(max * rate >= 0) by (nonlinear_arith)
        requires
            max >= 0,
            rate >= 0,
    ;
    vstd::arithmetic::div_mod::lemma_div_by_multiple(frames, channels as int);
}

/// A slice never reaches outside the audio.
pub proof fn a_slice_stays_inside(
    rate: u32,
    channels: u16,
    samples: Seq<i16>,
    start: u64,
    length: u64,
)
    requires
        channels > 0,
    ensures
        sliced(rate, channels, samples, start, length).len() <= samples.len(),
        slice_end(rate, channels, samples.len(), start, length) <= samples.len(),
{
    let n = at_most(
        slice_start(rate, channels, samples.len(), start) + samples_in(length, rate * channels),
        samples.len(),
    );
    vstd::arithmetic::div_mod::lemma_fundamental_div_mod(n as int, channels as int);
    vstd::arithmetic::mul::lemma_mul_is_commutative(n as int / channels as int, channels as int);
}

/// A slice of whole seconds is the stretch that was asked for, as far as there are samples.
#[verifier::spinoff_prover]
pub proof fn a_slice_is_the_stretch_asked_for(
    rate: u32,
    channels: u16,
    samples: Seq<i16>,
    from: int,
    seconds: int,
)
    requires
        channels > 0,
        samples.len() % (channels as nat) == 0,
        0 <= from,
        0 < seconds,
        (from + seconds) * 1_000_000_000 <= u64::MAX,
    ensures
        ({
            let each = rate * channels;
            let part = sliced(
                rate,
                channels,
                samples,
                (from * 1_000_000_000) as u64,
                (seconds * 1_000_000_000) as u64,
            );
            &&& (from + seconds) * each <= samples.len() ==> part == samples.subrange(
                from * each,
                (from + seconds) * each,
            )
            &&& from * each < samples.len() < (from + seconds) * each ==> part == samples.skip(
                from * each,
            )
            &&& samples.len() <= from * each ==> part.len() == 0
        }),
{
    let each = rate * channels;
    let n = samples.len() as int;
    let c = channels as int;
    let start = (from * 1_000_000_000) as u64;
    let length = (seconds * 1_000_000_000) as u64;
    whole_seconds_of_samples(from, rate, channels);
    whole_seconds_of_samples(seconds, rate, channels);
    let a = from * each;
    let b = seconds * each;
    assert((from + seconds) * each == a + b) by (nonlinear_arith)
        requires
            a == from * each,
            b == seconds * each,
    ;
    assert(a == (from * rate) * c && b == (seconds * rate) * c) by (nonlinear_arith)
        requires
            a == from * (rate * channels),
            b == seconds * (rate * channels),
            c == channels,
    ;
    assert((from * rate) * c + (seconds * rate) * c == (from * rate + seconds * rate) * c)
        by (nonlinear_arith);
    frames_stay_whole(from * rate, channels);
    frames_stay_whole(from * rate + seconds * rate, channels);
    vstd::arithmetic::div_mod::lemma_fundamental_div_mod(n, c);
    assert(n == (n / c) * c) by (nonlinear_arith)
        requires
            n == c * (n / c) + n % c,
            n % c == 0,
    ;
    frames_stay_whole(n / c, channels);
    assert(0 <= from * rate && 0 <= seconds * rate && 0 <= a && 0 <= b) by (nonlinear_arith)
        requires
            0 <= from,
            0 <= seconds,
            0 <= rate,
            0 <= c,
            a == (from * rate) * c,
            b == (seconds * rate) * c,
    ;
    if n > a && n < a + b {
        assert(samples.skip(a) =~= samples.subrange(a, n));
    }
}

proof fn whole_seconds_of_samples(k: int, rate: u32, channels: u16)
    requires
        0 <= k,
        k * 1_000_000_000 <= u64::MAX,
    ensures
        samples_in((k * 1_000_000_000) as u64, rate * channels) == k * (rate * channels),
{
    let each = rate * channels;
    assert(each >= 0) by (nonlinear_arith)
        requires
            each == rate * channels,
    ;
    assert(k * 1_000_000_000 * each / 1_000_000_000 == k * each && k * each >= 0)
        by (nonlinear_arith)
        requires
            k >= 0,
            each >= 0,
    ;
}

proof fn frames_stay_whole(k: int, channels: u16)
    requires
        channels > 0,
        k >= 0,
    ensures
        k * channels >= 0,
        whole_frames((k * channels) as nat, channels) == k * channels,
{
    let c = channels as int;
    assert(k * c >= 0 && (k * c) / c == k) by (nonlinear_arith)
        requires
            k >= 0,
            c > 0,
    ;
}

/// The pieces of a recording follow one another without a gap: each begins where the one before
/// it ends, and all but the last are of full size.
pub proof fn pieces_follow_one_another(samples: Seq<i16>, size: int, i: int)
    requires
        size > 0,
        0 <= i < chunks(samples, size).len(),
    ensures
        0 <= i * size < samples.len(),
        chunks(samples, size)[i] == samples.subrange(
            i * size,
            if i * size + size <= samples.len() {
                i * size + size
            } else {
                samples.len() as int
            },
        ),
        i < chunks(samples, size).len() - 1 ==> chunks(samples, size)[i].len() == size,
    decreases samples.len(),
{
    let rest = samples.skip(size);
    if samples.len() <= size {
        assert(i == 0);
        assert(samples.subrange(0, samples.len() as int) =~= samples);
    } else if i == 0 {
        assert(chunks(samples, size)[0] =~= samples.subrange(0, size));
    } else {
        pieces_follow_one_another(rest, size, i - 1);
        assert((i - 1) * size == i * size - size) by (nonlinear_arith);
        assert(chunks(samples, size)[i] == chunks(rest, size)[i - 1]);
        let to = if i * size + size <= samples.len() {
            i * size + size
        } else {
            samples.len() as int
        };
        assert(rest.subrange(i * size - size, to - size) =~= samples.subrange(i * size, to));
    }
}

/// So many seconds of frames last so many seconds.
pub proof fn frames_last_their_seconds(seconds: nat, rate: u32)
    requires
        rate > 0,
    ensures
        frames_length(seconds * rate as nat, rate) == seconds * SECOND,
{
    assert((seconds * rate as nat) * SECOND / (rate as int) == seconds * SECOND)
        by (nonlinear_arith)
        requires
            rate > 0,
    ;
}

/// No two parts of a recording share a name.
pub proof fn part_names_differ(stem: Seq<char>, a: nat, b: nat)
    requires
        a != b,
    ensures
        part_name(stem, a) != part_name(stem, b),
{
    numbers_are_told_apart(a, b);
    let x = part_name(stem, a);
    let y = part_name(stem, b);
    let lead = stem + "-part"@;
    let n = lead.len() as int;
    assert(x.subrange(n, x.len() - ".wav"@.len()) =~= two_digits(a));
    assert(y.subrange(n, y.len() - ".wav"@.len()) =~= two_digits(b));
}

/// What is known of a recording is what its header says, in whole frames of all its channels.
pub proof fn a_header_is_read_as_it_is(header: WavHeader)
    requires
        header.channels > 0,
    ensures
        ({
            let known = info_of(header);
            &&& known.sample_rate == header.sample_rate
            &&& known.channels == header.channels
            &&& known.bits_per_sample == header.bits_per_sample
            &&& known.frames * header.channels <= header.len < (known.frames + 1) * header.channels
        }),
{
    let n = header.len as int;
    let c = header.channels as int;
    vstd::arithmetic::div_mod::lemma_fundamental_div_mod(n, c);
    let f = info_of(header).frames as int;
    assert(f == n / c);
    assert(f * c == c * f && (f + 1) * c == c * f + c) by (nonlinear_arith);
}

/// A recording fits exactly where it lasts no longer than what is allowed.
pub proof fn a_recording_fits_where_it_lasts_no_longer(frames: nat, rate: u32, seconds: nat)
    requires
        rate > 0,
        seconds * 1_000_000_000 <= u64::MAX,
    ensures
        fits(frames, rate, (seconds * 1_000_000_000) as u64) <==> frames <= seconds * rate,
{
    assert((seconds * 1_000_000_000) * rate == (seconds * rate) * 1_000_000_000)
        by (nonlinear_arith);
}

/// The parts of a recording that was split hold all of it: put together in their order, their
/// samples are its samples, at its own rate and with its own channels.
pub proof fn the_parts_make_up_the_recording(
    bytes: Seq<u8>,
    stem: Seq<char>,
    max: u64,
    parts: Vec<WavPart>,
    i: int,
)
    ensures
        is_split(bytes, stem, max, Some(parts)) ==> Seq::new(
            parts@.len(),
            |k: int| wav_samples(parts@[k].bytes@)->0,
        ).flatten() == wav_samples(bytes)->0,
        is_split(bytes, stem, max, Some(parts)) && 0 <= i < parts@.len() ==> ({
            let own = wav_header(parts@[i].bytes@)->0;
            &&& own.sample_rate == wav_header(bytes)->0.sample_rate
            &&& own.channels == wav_header(bytes)->0.channels
            &&& own.bits_per_sample == 16
            &&& parts@[i].name@ == part_name(stem, (i + 1) as nat)
        }),
{
    if is_split(bytes, stem, max, Some(parts)) {
        let header = wav_header(bytes)->0;
        let pieces = split_pieces(bytes, max);
        let size = part_size(header.sample_rate, header.channels, max);
        parts_add_up(wav_samples(bytes)->0, size);
        let held = Seq::new(parts@.len(), |k: int| wav_samples(parts@[k].bytes@)->0);
        assert forall|k: int| 0 <= k < held.len() implies #[trigger] held[k] == pieces[k] by {
            assert(is_part(parts@[k], stem, header, pieces, k));
        }
        assert(held =~= pieces);
        if 0 <= i < parts@.len() {
            assert(is_part(parts@[i], stem, header, pieces, i));
        }
    }
}

/// A slice is refused for what is wrong with it: a file that is no recording, one that is not in
/// sixteen bits, or a stretch without a sample.
pub proof fn a_slice_is_refused_for_its_own_fault(bytes: Seq<u8>, start: u64, length: u64)
    ensures
        wav_header(bytes) is None ==> slice_error(bytes, start, length) == Some(
            WavError::Unreadable,
        ),
        wav_header(bytes) is Some && (wav_header(bytes)->0.bits_per_sample != 16 || !wav_header(
            bytes,
        )->0.is_int) ==> slice_error(bytes, start, length) == Some(WavError::NotPcm),
        slice_error(bytes, start, length) is None ==> ({
            let header = wav_header(bytes)->0;
            &&& header.sample_rate > 0 && header.bits_per_sample == 16 && header.is_int
            &&& sliced(
                header.sample_rate,
                header.channels,
                wav_samples(bytes)->0,
                start,
                length,
            ).len() > 0
        }),
{
}

} // verus!
