//! Choosing the window that a sample is cut from: the loudest stretch of a recording.
//!
//! A recording usually opens with silence, joining noises and "can you hear me". Choosing by
//! energy finds real conversation wherever it happens to be.
use vstd::prelude::*;
use crate::wav::{
    Audio, WavError, at_most, is_audio_of, pcm_error, read_frames, samples_in, slice_end, slice_start,
    sliced, wav_header, wav_samples,
};

verus! {

/// The recording is weighed in buckets of this many nanoseconds.
pub const BUCKET: u64 = 10_000_000_000;

/// The sum of the squares of all samples.
pub open spec fn square_sum(samples: Seq<i16>) -> nat
    decreases samples.len(),
{
    if samples.len() == 0 {
        0
    } else {
        square_sum(samples.drop_last()) + (samples.last() * samples.last()) as nat
    }
}

/// Where the `i`th bucket ends.
pub open spec fn bucket_end(total: nat, size: nat, i: int) -> int {
    if (i + 1) * size < total {
        (i + 1) * size
    } else {
        total as int
    }
}

/// The energy in the `i`th bucket.
pub open spec fn bucket_sum(samples: Seq<i16>, size: nat, i: int) -> nat {
    square_sum(samples.subrange(i * size, bucket_end(samples.len(), size, i)))
}

/// How many buckets there are, the last one perhaps not full.
pub open spec fn bucket_count(total: nat, size: nat) -> int {
    if total == 0 {
        0
    } else {
        (total - 1) / (size as int) + 1
    }
}

/// How many samples the last bucket holds.
pub open spec fn last_size(total: nat, size: nat) -> int {
    total - (bucket_count(total, size) - 1) * size
}

/// What a bucket's energy is multiplied with. Buckets are compared by their mean energy,
/// so each sum is scaled by the size of the other kind of bucket: the full ones by the size
/// of the last, the last one by the size of the full ones.
pub open spec fn weight(total: nat, size: nat, i: int) -> int {
    if i == bucket_count(total, size) - 1 {
        size as int
    } else {
        last_size(total, size)
    }
}

/// The scaled mean energy of the buckets from `from` up to `to`.
pub open spec fn energy(samples: Seq<i16>, size: nat, from: int, to: int) -> int
    decreases to - from,
{
    if to <= from {
        0
    } else {
        energy(samples, size, from, to - 1) + weight(samples.len(), size, to - 1) * bucket_sum(
            samples,
            size,
            to - 1,
        )
    }
}

/// Where a window of `width` buckets ends.
pub open spec fn window_end(samples: Seq<i16>, size: nat, start: int, width: int) -> int {
    if start + width < bucket_count(samples.len(), size) {
        start + width
    } else {
        bucket_count(samples.len(), size)
    }
}

pub open spec fn window_energy(samples: Seq<i16>, size: nat, start: int, width: int) -> int {
    energy(samples, size, start, window_end(samples, size, start, width))
}

/// Whether the window at `best` is the first of the loudest that start from `first` up to
/// `last`.
pub open spec fn is_loudest(
    samples: Seq<i16>,
    size: nat,
    width: int,
    first: int,
    last: int,
    best: int,
) -> bool {
    &&& first <= best <= last
    &&& forall|s: int|
        first <= s <= last ==> #[trigger] window_energy(samples, size, s, width) <= window_energy(
            samples,
            size,
            best,
            width,
        )
    &&& forall|s: int|
        first <= s < best ==> #[trigger] window_energy(samples, size, s, width) < window_energy(
            samples,
            size,
            best,
            width,
        )
}

/// How many buckets a window of `length` takes: at least one.
pub open spec fn buckets_for(length: u64) -> int {
    if length == 0 {
        1
    } else {
        (length - 1) / (BUCKET as int) + 1
    }
}

/// The last bucket that leaves room for a window.
pub open spec fn last_start(count: int, width: int) -> int {
    if count > width {
        count - width
    } else {
        0
    }
}

/// The first bucket a window may start at. The lead-in is skipped only while a full window
/// is left: a short meeting keeps its lead-in rather than losing the sample entirely.
pub open spec fn first_start(count: int, width: int, skip: u64) -> int {
    if skip / BUCKET < last_start(count, width) {
        (skip / BUCKET) as int
    } else {
        last_start(count, width)
    }
}

/// The window a sample should be cut from, in nanoseconds, with the energy in it: the sum
/// of the squares of `count` samples.
#[derive(Debug, Clone, Copy, PartialEq, Eq, Structural)]
pub struct Window {
    pub start: u64,
    pub length: u64,
    pub energy: u64,
    pub count: usize,
}

/// How long the audio lasts, rounded down.
pub open spec fn whole_length(audio: Audio) -> int {
    (audio.samples@.len() as int * 1_000_000_000) / audio.per_second()
}

/// How long the audio lasts, rounded up: a slice that long takes in all of it.
pub open spec fn full_length(audio: Audio) -> int {
    (audio.samples@.len() as int * 1_000_000_000 + audio.per_second() - 1) / audio.per_second()
}

pub open spec fn has_audio(audio: Audio) -> bool {
    audio.sample_rate > 0 && audio.samples@.len() > 0
}

/// Whether the whole recording is no longer than a window.
pub open spec fn is_short(audio: Audio, length: u64) -> bool {
    audio.samples@.len() * 1_000_000_000 <= length * audio.per_second()
}

pub open spec fn bucket_size(audio: Audio) -> nat {
    (10 * audio.per_second()) as nat
}

/// Where the window that starts with the bucket `best` starts, in nanoseconds: with that
/// bucket, or as far before it as a full window needs.
pub open spec fn start_of(audio: Audio, length: u64, best: int) -> int {
    if best * BUCKET <= whole_length(audio) - length {
        best * BUCKET
    } else {
        whole_length(audio) - length
    }
}

/// Whether `w` is the window to cut from a recording longer than a window: a full window, at
/// the first of the loudest places.
pub open spec fn is_window(audio: Audio, length: u64, skip: u64, w: Window) -> bool {
    let size = bucket_size(audio);
    let total = audio.samples@.len();
    let count = bucket_count(total, size);
    let width = buckets_for(length);
    let from = samples_in(w.start, audio.per_second()) as int;
    let to = at_most((from + samples_in(length, audio.per_second())) as nat, total) as int;
    &&& w.length == length
    &&& w.start + w.length <= whole_length(audio)
    &&& exists|best: int| #[trigger]
        is_loudest(
            audio.samples@,
            size,
            width,
            first_start(count, width, skip),
            last_start(count, width),
            best,
        ) && w.start == start_of(audio, length, best)
    &&& 0 <= from <= to <= total
    &&& w.energy == square_sum(audio.samples@.subrange(from, to))
    &&& w.count == to - from
}

/// Whether `w` is the window to cut from a recording: the whole of one that is no longer
/// than a window, or else a full window.
pub open spec fn is_picked(audio: Audio, length: u64, skip: u64, w: Window) -> bool {
    if is_short(audio, length) {
        &&& w.start == 0
        &&& w.length == full_length(audio)
        &&& w.energy == square_sum(audio.samples@)
        &&& w.count == audio.samples@.len()
    } else {
        is_window(audio, length, skip, w)
    }
}

// ------------------------------------------------------------------------- bounds

proof fn square_bound(x: i16)
    ensures
        0 <= x * x <= 0x4000_0000,
{
    assert(0 <= x * x <= 0x4000_0000) by (nonlinear_arith)
        requires
            -0x8000 <= x <= 0x7fff,
    ;
}

proof fn square_sum_bound(samples: Seq<i16>)
    ensures
        square_sum(samples) <= 0x4000_0000 * samples.len(),
    decreases samples.len(),
{
    if samples.len() > 0 {
        square_sum_bound(samples.drop_last());
        square_bound(samples.last());
    }
}

proof fn square_sum_adds(a: Seq<i16>, b: Seq<i16>)
    ensures
        square_sum(a + b) == square_sum(a) + square_sum(b),
    decreases b.len(),
{
    if b.len() == 0 {
        assert(a + b == a);
    } else {
        assert((a + b).drop_last() == a + b.drop_last());
        square_sum_adds(a, b.drop_last());
    }
}

proof fn bucket_bounds(total: nat, size: nat, i: int)
    requires
        size > 0,
        0 <= i < bucket_count(total, size),
    ensures
        0 <= i * size < bucket_end(total, size, i) <= total,
        i + 1 < bucket_count(total, size) ==> bucket_end(total, size, i) == (i + 1) * size,
        i + 1 == bucket_count(total, size) ==> bucket_end(total, size, i) == total,
        1 <= last_size(total, size) <= size,
{
    let q = (total - 1) / (size as int);
    vstd::arithmetic::div_mod::lemma_fundamental_div_mod(total - 1, size as int);
    assert(total - 1 == q * size + (total - 1) % (size as int)) by {
        vstd::arithmetic::mul::lemma_mul_is_commutative(q, size as int);
    }
    assert(i * size <= q * size && i * size >= 0) by (nonlinear_arith)
        requires
            0 <= i <= q,
            size > 0,
    ;
    assert((i + 1) * size == i * size + size) by (nonlinear_arith);
    if i + 1 <= q {
        assert((i + 1) * size <= q * size) by (nonlinear_arith)
            requires
                i + 1 <= q,
                size > 0,
        ;
    }
    assert((bucket_count(total, size) - 1) * size == q * size);
}

/// The plain energy of the buckets from `from` up to `to`.
spec fn plain_energy(samples: Seq<i16>, size: nat, from: int, to: int) -> int
    decreases to - from,
{
    if to <= from {
        0
    } else {
        plain_energy(samples, size, from, to - 1) + bucket_sum(samples, size, to - 1)
    }
}

proof fn plain_energy_is_square_sum(samples: Seq<i16>, size: nat, from: int, to: int)
    requires
        size > 0,
        0 <= from < to <= bucket_count(samples.len(), size),
    ensures
        plain_energy(samples, size, from, to) == square_sum(
            samples.subrange(from * size, bucket_end(samples.len(), size, to - 1)),
        ),
    decreases to - from,
{
    bucket_bounds(samples.len(), size, from);
    bucket_bounds(samples.len(), size, to - 1);
    let end = bucket_end(samples.len(), size, to - 1);
    if to - 1 > from {
        plain_energy_is_square_sum(samples, size, from, to - 1);
        bucket_bounds(samples.len(), size, to - 2);
        let mid = (to - 1) * size;
        assert(bucket_end(samples.len(), size, to - 2) == mid);
        assert(from * size <= mid) by (nonlinear_arith)
            requires
                from <= to - 1,
                size > 0,
                mid == (to - 1) * size,
        ;
        square_sum_adds(samples.subrange(from * size, mid), samples.subrange(mid, end));
        assert(samples.subrange(from * size, mid) + samples.subrange(mid, end)
            =~= samples.subrange(from * size, end));
    } else {
        assert(plain_energy(samples, size, from, to - 1) == 0);
        assert(to - 1 == from);
    }
}

proof fn energy_bound(samples: Seq<i16>, size: nat, from: int, to: int)
    requires
        size > 0,
        0 <= from,
        to <= bucket_count(samples.len(), size),
        samples.len() <= 0x7fff_ffff,
        size <= 0xf_ffff_ffff,
    ensures
        0 <= energy(samples, size, from, to) <= 0xf_ffff_ffff * plain_energy(
            samples,
            size,
            from,
            to,
        ),
        0 <= plain_energy(samples, size, from, to) <= 0x4000_0000 * 0x7fff_ffff,
    decreases to - from,
{
    if from < to {
        energy_bound(samples, size, from, to - 1);
        bucket_bounds(samples.len(), size, to - 1);
        let w = weight(samples.len(), size, to - 1);
        let b = bucket_sum(samples, size, to - 1);
        assert(0 <= w * b <= 0xf_ffff_ffff * b) by (nonlinear_arith)
            requires
                0 <= w <= 0xf_ffff_ffff,
                b >= 0,
        ;
        plain_energy_is_square_sum(samples, size, from, to);
        bucket_bounds(samples.len(), size, from);
        assert(from * size <= (to - 1) * size) by (nonlinear_arith)
            requires
                from <= to - 1,
                size > 0,
        ;
        let part = samples.subrange(from * size, bucket_end(samples.len(), size, to - 1));
        square_sum_bound(part);
    }
}

// -------------------------------------------------------------------------- choosing

fn square_sum_of(samples: &Vec<i16>, from: usize, to: usize) -> (r: u64)
    requires
        from <= to <= samples.len(),
        samples.len() <= 0x7fff_ffff,
    ensures
        r == square_sum(samples@.subrange(from as int, to as int)),
        r <= 0x4000_0000 * (to - from),
{
    let mut sum: u64 = 0;
    let mut i: usize = from;
    while i < to
        invariant
            from <= i <= to <= samples.len(),
            samples.len() <= 0x7fff_ffff,
            sum == square_sum(samples@.subrange(from as int, i as int)),
            sum <= 0x4000_0000 * (i - from),
        decreases to - i,
    {
        let x: i64 = samples[i] as i64;
        proof {
            square_bound(samples@[i as int]);
            let part = samples@.subrange(from as int, i + 1);
            assert(part.drop_last() == samples@.subrange(from as int, i as int));
            assert(part.last() == samples@[i as int]);
        }
        sum = sum + (x * x) as u64;
        i = i + 1;
    }
    sum
}

fn bucket_sums(samples: &Vec<i16>, size: u64, count: usize) -> (r: Vec<u64>)
    requires
        size > 0,
        samples.len() <= 0x7fff_ffff,
        count == bucket_count(samples@.len(), size as nat),
    ensures
        r.len() == count,
        forall|i: int|
            0 <= i < count ==> #[trigger] r@[i] == bucket_sum(samples@, size as nat, i),
{
    let mut r: Vec<u64> = Vec::new();
    let mut from: usize = 0;
    assert(0 * size == 0);
    while r.len() < count
        invariant
            size > 0,
            samples.len() <= 0x7fff_ffff,
            count == bucket_count(samples@.len(), size as nat),
            r.len() <= count,
            r.len() < count ==> from == r.len() * size,
            from <= samples.len(),
            forall|i: int|
                0 <= i < r.len() ==> #[trigger] r@[i] == bucket_sum(samples@, size as nat, i),
        decreases count - r.len(),
    {
        let ghost i = r.len() as int;
        proof {
            bucket_bounds(samples@.len(), size as nat, i);
            assert((i + 1) * size == i * size + size) by (nonlinear_arith);
        }
        let to: usize = if size < (samples.len() - from) as u64 {
            from + size as usize
        } else {
            samples.len()
        };
        assert(to == bucket_end(samples@.len(), size as nat, i));
        r.push(square_sum_of(samples, from, to));
        from = to;
    }
    r
}

fn energy_of(
    samples: &Vec<i16>,
    sums: &Vec<u64>,
    size: u64,
    last: u64,
    from: usize,
    to: usize,
) -> (r: u128)
    requires
        0 < size <= 0xf_ffff_ffff,
        samples.len() <= 0x7fff_ffff,
        sums.len() == bucket_count(samples@.len(), size as nat),
        last == last_size(samples@.len(), size as nat),
        forall|i: int|
            0 <= i < sums.len() ==> #[trigger] sums@[i] == bucket_sum(samples@, size as nat, i),
        from <= to <= sums.len(),
    ensures
        r == energy(samples@, size as nat, from as int, to as int),
{
    let mut r: u128 = 0;
    let mut i: usize = from;
    while i < to
        invariant
            0 < size <= 0xf_ffff_ffff,
            samples.len() <= 0x7fff_ffff,
            sums.len() == bucket_count(samples@.len(), size as nat),
            last == last_size(samples@.len(), size as nat),
            forall|i: int|
                0 <= i < sums.len() ==> #[trigger] sums@[i] == bucket_sum(samples@, size as nat, i),
            from <= i <= to <= sums.len(),
            r == energy(samples@, size as nat, from as int, i as int),
        decreases to - i,
    {
        let w: u128 = if i == sums.len() - 1 {
            size as u128
        } else {
            last as u128
        };
        proof {
            bucket_bounds(samples@.len(), size as nat, i as int);
            energy_bound(samples@, size as nat, from as int, i + 1);
            energy_bound(samples@, size as nat, from as int, i as int);
            assert(0 <= w * sums@[i as int] <= 0xf_ffff_ffff * 0xffff_ffff_ffff_ffff)
                by (nonlinear_arith)
                requires
                    0 <= w <= 0xf_ffff_ffff,
                    0 <= sums@[i as int] <= 0xffff_ffff_ffff_ffff,
            ;
        }
        r = r + w * (sums[i] as u128);
        i = i + 1;
    }
    r
}

proof fn bucket_count_is_bounded(total: nat, size: nat)
    requires
        size > 0,
    ensures
        0 <= bucket_count(total, size) <= total,
{
    if total > 0 {
        assert(0 <= (total - 1) / (size as int) <= total - 1) by (nonlinear_arith)
            requires
                total > 0,
                size > 0,
        ;
    }
}

/// The first of the loudest windows that may be chosen.
fn loudest(samples: &Vec<i16>, size: u64, width: u64, skip: u64) -> (best: usize)
    requires
        0 < size <= 0xf_ffff_ffff,
        0 < samples.len() <= 0x7fff_ffff,
        width >= 1,
    ensures
        is_loudest(
            samples@,
            size as nat,
            width as int,
            first_start(bucket_count(samples@.len(), size as nat), width as int, skip),
            last_start(bucket_count(samples@.len(), size as nat), width as int),
            best as int,
        ),
        best < bucket_count(samples@.len(), size as nat),
{
    proof {
        bucket_count_is_bounded(samples@.len(), size as nat);
        bucket_bounds(samples@.len(), size as nat, 0);
    }
    let total = samples.len();
    let count: usize = ((total - 1) as u64 / size + 1) as usize;
    let sums = bucket_sums(samples, size, count);
    proof {
        bucket_bounds(samples@.len(), size as nat, count - 1);
    }
    let last_len: u64 = total as u64 - (count - 1) as u64 * size;
    let last: usize = if count as u64 > width {
        count - width as usize
    } else {
        0
    };
    let wanted: u64 = skip / BUCKET;
    let first: usize = if wanted < last as u64 {
        wanted as usize
    } else {
        last
    };
    let mut best: usize = first;
    let first_end: usize = if width < (count - first) as u64 {
        first + width as usize
    } else {
        count
    };
    let mut best_energy: u128 = energy_of(samples, &sums, size, last_len, first, first_end);
    let mut start: usize = first;
    while start < last
        invariant
            0 < size <= 0xf_ffff_ffff,
            samples.len() <= 0x7fff_ffff,
            sums.len() == count,
            count == bucket_count(samples@.len(), size as nat),
            last_len == last_size(samples@.len(), size as nat),
            forall|i: int|
                0 <= i < sums.len() ==> #[trigger] sums@[i] == bucket_sum(samples@, size as nat, i),
            width >= 1,
            first <= best <= start <= last,
            last < count,
            best_energy == window_energy(samples@, size as nat, best as int, width as int),
            is_loudest(
                samples@,
                size as nat,
                width as int,
                first as int,
                start as int,
                best as int,
            ),
        decreases last - start,
    {
        start = start + 1;
        let end: usize = if width < (count - start) as u64 {
            start + width as usize
        } else {
            count
        };
        let e = energy_of(samples, &sums, size, last_len, start, end);
        assert(e == window_energy(samples@, size as nat, start as int, width as int));
        if e > best_energy {
            best_energy = e;
            best = start;
        }
    }
    best
}

proof fn per_second_bound(audio: Audio)
    requires
        audio.well_formed(),
        has_audio(audio),
    ensures
        0 < audio.per_second() <= 0x7fff_ffff,
{
    let rate = audio.sample_rate as int;
    let width = audio.channels as int;
    assert(rate * width > 0) by (nonlinear_arith)
        requires
            rate > 0,
            width > 0,
    ;
}

/// A recording longer than `length` lasts at least that long in whole nanoseconds.
proof fn length_of_a_long_recording(audio: Audio, length: u64)
    requires
        audio.well_formed(),
        has_audio(audio),
        !is_short(audio, length),
    ensures
        length <= whole_length(audio),
{
    per_second_bound(audio);
    let n = audio.samples@.len() as int * 1_000_000_000;
    let d = audio.per_second();
    assert(length <= n / d) by (nonlinear_arith)
        requires
            length * d < n,
            d > 0,
    ;
}

/// A moment of the recording has no more samples before it than there are.
proof fn samples_before(audio: Audio, t: u64)
    requires
        audio.well_formed(),
        has_audio(audio),
        t <= whole_length(audio),
    ensures
        0 <= t * audio.per_second() <= audio.samples@.len() * 1_000_000_000,
        samples_in(t, audio.per_second()) <= audio.samples@.len(),
{
    per_second_bound(audio);
    let n = audio.samples@.len() as int * 1_000_000_000;
    let d = audio.per_second();
    assert(0 <= t * d <= n) by (nonlinear_arith)
        requires
            0 <= t <= n / d,
            d > 0,
    ;
}

/// Buckets the energy of a recording and chooses the loudest contiguous window of `length`
/// nanoseconds, dropping a lead-in of `skip` while a full window is left.
pub fn pick_window(audio: &Audio, length: u64, skip: u64) -> (r: Result<Window, WavError>)
    requires
        audio.well_formed(),
    ensures
        match r {
            Ok(w) => {
                &&& has_audio(*audio)
                &&& is_picked(*audio, length, skip, w)
            },
            Err(e) => !has_audio(*audio) && e == WavError::NoAudio,
        },
{
    let total = audio.samples.len();
    if audio.sample_rate == 0 || total == 0 {
        return Err(WavError::NoAudio);
    }
    proof {
        per_second_bound(*audio);
    }
    let rate: u64 = audio.sample_rate as u64;
    let per_second: u64 = rate * audio.channels as u64;
    proof {
        assert(0 <= length * per_second <= 0xffff_ffff_ffff_ffff * 0x7fff_ffff) by (nonlinear_arith)
            requires
                0 <= length <= 0xffff_ffff_ffff_ffff,
                0 <= per_second <= 0x7fff_ffff,
        ;
    }
    let length_samples: u128 = length as u128 * per_second as u128;
    let whole: u64 = (total as u128 * 1_000_000_000 / per_second as u128) as u64;
    proof {
        let n = total as int * 1_000_000_000;
        let d = per_second as int;
        assert(0 <= n / d <= n) by (nonlinear_arith)
            requires
                n >= 0,
                d > 0,
        ;
    }
    if total as u128 * 1_000_000_000 <= length_samples {
        let energy = square_sum_of(&audio.samples, 0, total);
        assert(audio.samples@.subrange(0, total as int) =~= audio.samples@);
        let full: u128 = (total as u128 * 1_000_000_000 + per_second as u128 - 1)
            / per_second as u128;
        proof {
            let n = total as int * 1_000_000_000 + per_second - 1;
            let d = per_second as int;
            assert(0 <= n / d <= n) by (nonlinear_arith)
                requires
                    n >= 0,
                    d > 0,
            ;
        }
        return Ok(Window { start: 0, length: full as u64, energy, count: total });
    }
    let size: u64 = 10 * per_second;
    let buckets: u64 = if length == 0 {
        1
    } else {
        (length - 1) / BUCKET + 1
    };
    let best = loudest(&audio.samples, size, buckets, skip);
    proof {
        bucket_bounds(total as nat, size as nat, best as int);
        bucket_count_is_bounded(total as nat, size as nat);
    }
    proof {
        length_of_a_long_recording(*audio, length);
    }
    proof {
        assert(best * 10 <= total) by (nonlinear_arith)
            requires
                best * size < total,
                size >= 10,
                best >= 0,
        ;
    }
    let room: u64 = whole - length;
    let wanted_start: u64 = best as u64 * BUCKET;
    let start: u64 = if wanted_start <= room {
        wanted_start
    } else {
        room
    };
    assert(start == start_of(*audio, length, best as int));
    proof {
        samples_before(*audio, start);
    }
    let from: usize = (start as u128 * per_second as u128 / 1_000_000_000) as usize;
    let wanted: u128 = length_samples / 1_000_000_000;
    let to: usize = if wanted < (total - from) as u128 {
        from + wanted as usize
    } else {
        total
    };
    let w = Window {
        start,
        length,
        energy: square_sum_of(&audio.samples, from, to),
        count: to - from,
    };
    assert(from == samples_in(start, audio.per_second()));
    assert(wanted == samples_in(length, audio.per_second()));
    assert(is_loudest(
        audio.samples@,
        bucket_size(*audio),
        buckets_for(length),
        first_start(bucket_count(total as nat, bucket_size(*audio)), buckets_for(length), skip),
        last_start(bucket_count(total as nat, bucket_size(*audio)), buckets_for(length)),
        best as int,
    ));
    Ok(w)
}

/// A recording longer than a window gives a window of the asked length, all of it inside the
/// recording.
pub proof fn a_long_recording_gives_a_full_window(audio: Audio, length: u64, skip: u64, w: Window)
    requires
        !is_short(audio, length),
        is_picked(audio, length, skip, w),
    ensures
        w.length == length,
        w.start + w.length <= whole_length(audio),
{
}

/// A recording no longer than a window is cut as a whole, to the last sample.
pub proof fn a_short_recording_is_cut_whole(audio: Audio, length: u64, skip: u64, w: Window)
    requires
        audio.well_formed(),
        has_audio(audio),
        is_short(audio, length),
        is_picked(audio, length, skip, w),
    ensures
        sliced(audio.sample_rate, audio.channels, audio.samples@, w.start, w.length)
            == audio.samples@,
{
    per_second_bound(audio);
    let n = audio.samples@.len() as int;
    let d = audio.per_second();
    let width = audio.channels as int;
    assert(w.length * d >= n * 1_000_000_000) by (nonlinear_arith)
        requires
            w.length == (n * 1_000_000_000 + d - 1) / d,
            d > 0,
    ;
    assert(samples_in(w.length, d) >= n);
    assert(samples_in(0, d) == 0) by (nonlinear_arith)
        requires
            samples_in(0, d) == (0 * d / 1_000_000_000) as nat,
    ;
    assert(n / width * width == n) by {
        vstd::arithmetic::div_mod::lemma_fundamental_div_mod(n, width);
        vstd::arithmetic::mul::lemma_mul_is_commutative(n / width, width);
    }
    let rate = audio.sample_rate;
    assert(slice_start(rate, audio.channels, n as nat, 0) == 0) by {
        vstd::arithmetic::div_mod::lemma_basic_div(0, width);
        assert(0 * width == 0);
    }
    assert(slice_end(rate, audio.channels, n as nat, 0, w.length) == n);
    assert(audio.samples@.subrange(0, n) =~= audio.samples@);
}

/// The lead-in is skipped, to the bucket, wherever a full window is left behind it.
pub proof fn the_lead_in_is_skipped_while_a_window_is_left(
    audio: Audio,
    length: u64,
    skip: u64,
    w: Window,
)
    requires
        audio.well_formed(),
        has_audio(audio),
        length > 0,
        !is_short(audio, length),
        is_picked(audio, length, skip, w),
        skip + length <= whole_length(audio),
    ensures
        w.start >= skip / BUCKET * BUCKET,
{
    per_second_bound(audio);
    let n = audio.samples@.len() as int;
    let d = audio.per_second();
    let size = bucket_size(audio);
    let count = bucket_count(n as nat, size);
    assert(n <= count * (10 * d)) by (nonlinear_arith)
        requires
            n > 0,
            d > 0,
            count == (n - 1) / (10 * d) + 1,
    ;
    assert(whole_length(audio) <= count * BUCKET) by (nonlinear_arith)
        requires
            n <= count * (10 * d),
            d > 0,
            whole_length(audio) == (n * 1_000_000_000) / d,
            BUCKET == 10_000_000_000,
    ;
    assert(skip / BUCKET + buckets_for(length) <= count);
    let best = choose|best: int| #[trigger]
        is_loudest(
            audio.samples@,
            size,
            buckets_for(length),
            first_start(count, buckets_for(length), skip),
            last_start(count, buckets_for(length)),
            best,
        ) && w.start == start_of(audio, length, best);
    assert(best >= skip / BUCKET);
}

/// Chooses a window of a WAV file.
pub fn pick_energy_window(bytes: &[u8], length: u64, skip: u64) -> (r: Result<Window, WavError>)
    ensures
        match r {
            Ok(w) => pcm_error(bytes@) is None && exists|audio: Audio|
                #[trigger] is_audio_of(audio, bytes@) && has_audio(audio) && is_picked(
                    audio,
                    length,
                    skip,
                    w,
                ),
            Err(e) => match pcm_error(bytes@) {
                Some(error) => e == error,
                None => e == WavError::NoAudio && (wav_header(bytes@)->0.sample_rate == 0
                    || wav_samples(bytes@)->0.len() == 0),
            },
        },
{
    let audio = match read_frames(bytes) {
        Ok(audio) => audio,
        Err(e) => {
            return Err(e);
        },
    };
    assert(is_audio_of(audio, bytes@));
    pick_window(&audio, length, skip)
}

// ------------------------------------------------------------------------ loudness

/// The energy of samples is what their squares add up to.
pub proof fn energy_is_the_sum_of_squares(samples: Seq<i16>)
    ensures
        square_sum(samples) == samples.fold_left(0int, |sum: int, x: i16| sum + x * x),
    decreases samples.len(),
{
    if samples.len() > 0 {
        square_bound(samples.last());
        energy_is_the_sum_of_squares(samples.drop_last());
    }
}

/// In a recording of whole buckets every bucket counts alike.
proof fn whole_buckets_count_alike(samples: Seq<i16>, size: nat, from: int, to: int)
    requires
        size > 0,
        samples.len() > 0,
        samples.len() % size == 0,
        0 <= from,
        to <= bucket_count(samples.len(), size),
    ensures
        energy(samples, size, from, to) == size * plain_energy(samples, size, from, to),
        bucket_count(samples.len(), size) * size == samples.len(),
    decreases to - from,
{
    let n = samples.len() as int;
    let d = size as int;
    vstd::arithmetic::div_mod::lemma_fundamental_div_mod(n, d);
    let q = n / d;
    assert((n - 1) / d == q - 1) by (nonlinear_arith)
        requires
            n == d * q,
            n > 0,
            d > 0,
    ;
    assert(q * d == n) by (nonlinear_arith)
        requires
            n == d * q,
    ;
    assert(last_size(samples.len(), size) == d) by (nonlinear_arith)
        requires
            last_size(samples.len(), size) == n - (q - 1) * d,
            q * d == n,
    ;
    if from < to {
        whole_buckets_count_alike(samples, size, from, to - 1);
        let e = plain_energy(samples, size, from, to - 1);
        let b = bucket_sum(samples, size, to - 1) as int;
        assert(d * e + d * b == d * (e + b)) by (nonlinear_arith);
    } else {
        assert(size * 0 == 0);
    }
}

/// A bucket's worth of time is a bucket's worth of samples.
proof fn buckets_of_time(k: int, d: int)
    requires
        0 <= k,
        0 <= d,
        k * BUCKET <= u64::MAX,
    ensures
        samples_in((k * BUCKET) as u64, d) == k * (10 * d),
{
    let t = (k * BUCKET) as u64;
    assert(t * d == (k * (10 * d)) * 1_000_000_000) by (nonlinear_arith)
        requires
            t == k * 10_000_000_000,
    ;
    assert(0 <= k * (10 * d)) by (nonlinear_arith)
        requires
            0 <= k,
            0 <= d,
    ;
}

/// The window that is picked is the loudest there is. Of a recording of whole buckets and a
/// window of whole buckets, no other window that starts with a bucket behind the lead-in, as
/// far as a full window is left behind that, holds more energy, and none before it as much.
#[verifier::spinoff_prover]
pub proof fn the_loudest_window_is_picked(
    audio: Audio,
    buckets: int,
    length: u64,
    skip: u64,
    w: Window,
    s: int,
)
    requires
        audio.well_formed(),
        has_audio(audio),
        buckets > 0,
        length == buckets * BUCKET,
        audio.samples@.len() % ((10 * audio.per_second()) as nat) == 0,
        audio.samples@.len() > buckets * (10 * audio.per_second()),
        is_picked(audio, length, skip, w),
        // The window that starts with the bucket `s` is a full one behind the lead-in.
        s >= skip / BUCKET || (s + buckets) * (10 * audio.per_second()) == audio.samples@.len(),
        0 <= s,
        (s + buckets) * (10 * audio.per_second()) <= audio.samples@.len(),
    ensures
        ({
            let size = 10 * audio.per_second();
            let other = square_sum(
                audio.samples@.subrange(s * size, (s + buckets) * size),
            );
            &&& other <= w.energy
            &&& s * BUCKET < w.start ==> other < w.energy
            &&& w.start % BUCKET == 0
            &&& w.energy == square_sum(
                audio.samples@.subrange(
                    w.start / BUCKET * size,
                    (w.start / BUCKET + buckets) * size,
                ),
            )
        }),
{
    per_second_bound(audio);
    let samples = audio.samples@;
    let n = samples.len() as int;
    let d = audio.per_second();
    let size = bucket_size(audio);
    let count = bucket_count(n as nat, size);
    assert(buckets_for(length) == buckets);
    whole_buckets_count_alike(samples, size, 0, count);
    assert(!is_short(audio, length)) by (nonlinear_arith)
        requires
            n > buckets * (10 * d),
            length == buckets * 10_000_000_000,
            is_short(audio, length) == (n * 1_000_000_000 <= length * d),
    ;
    assert(count > buckets && s + buckets <= count) by (nonlinear_arith)
        requires
            count * size == n,
            size == 10 * d,
            size > 0,
            n > buckets * (10 * d),
            (s + buckets) * (10 * d) <= n,
    ;
    let first = first_start(count, buckets, skip);
    let last = last_start(count, buckets);
    assert(last == count - buckets);
    assert(s >= skip / BUCKET || s == last) by {
        if (s + buckets) * (10 * d) == n {
            assert(s + buckets == count) by (nonlinear_arith)
                requires
                    (s + buckets) * (10 * d) == n,
                    count * size == n,
                    size == 10 * d,
                    size > 0,
            ;
        }
    }
    assert(first <= s <= last);
    let best = choose|best: int| #[trigger]
        is_loudest(samples, size, buckets, first, last, best) && w.start == start_of(
            audio,
            length,
            best,
        );
    // The whole recording lasts as long as its buckets.
    assert(whole_length(audio) == count * BUCKET) by (nonlinear_arith)
        requires
            whole_length(audio) == (n * 1_000_000_000) / d,
            count * (10 * d) == n,
            d > 0,
            BUCKET == 10_000_000_000,
    ;
    assert(w.start == best * BUCKET);
    energy_of_full_window(samples, size, best, buckets);
    energy_of_full_window(samples, size, s, buckets);
    buckets_of_time(best, d);
    buckets_of_time(buckets, d);
    let at = best * (10 * d);
    assert(at + buckets * (10 * d) == (best + buckets) * (10 * d)) by (nonlinear_arith)
        requires
            at == best * (10 * d),
    ;
    assert((best + buckets) * (10 * d) <= n) by (nonlinear_arith)
        requires
            best + buckets <= count,
            count * (10 * d) == n,
            d > 0,
    ;
    let here = square_sum(samples.subrange(best * size, (best + buckets) * size)) as int;
    let other = square_sum(samples.subrange(s * size, (s + buckets) * size)) as int;
    assert(w.energy == here);
    assert(window_energy(samples, size, s, buckets) <= window_energy(samples, size, best, buckets));
    assert(other <= here) by (nonlinear_arith)
        requires
            size * other <= size * here,
            size > 0,
    ;
    if s < best {
        assert(window_energy(samples, size, s, buckets) < window_energy(
            samples,
            size,
            best,
            buckets,
        ));
        assert(other < here) by (nonlinear_arith)
            requires
                size * other < size * here,
                size > 0,
        ;
    }
}

proof fn energy_of_full_window(samples: Seq<i16>, size: nat, start: int, width: int)
    requires
        size > 0,
        samples.len() > 0,
        samples.len() % size == 0,
        0 <= start,
        0 < width,
        start + width <= bucket_count(samples.len(), size),
    ensures
        window_energy(samples, size, start, width) == size * square_sum(
            samples.subrange(start * size, (start + width) * size),
        ),
{
    let to = start + width;
    whole_buckets_count_alike(samples, size, start, to);
    plain_energy_is_square_sum(samples, size, start, to);
    bucket_bounds(samples.len(), size, to - 1);
    assert(window_end(samples, size, start, width) == to);
}

/// The buckets cover the recording from end to end, and each counts by its mean energy: what its
/// energy is multiplied with makes up for how many samples it holds.
pub proof fn every_bucket_counts_by_its_mean(total: nat, size: nat, i: int)
    requires
        size > 0,
        0 <= i < bucket_count(total, size),
    ensures
        0 <= i * size < bucket_end(total, size, i) <= total,
        i + 1 < bucket_count(total, size) ==> bucket_end(total, size, i) == (i + 1) * size,
        i + 1 == bucket_count(total, size) ==> bucket_end(total, size, i) == total,
        0 < last_size(total, size) <= size,
        weight(total, size, i) * (bucket_end(total, size, i) - i * size) == size * last_size(
            total,
            size,
        ),
{
    let n = total as int;
    let d = size as int;
    let q = (n - 1) / d;
    let r = (n - 1) % d;
    vstd::arithmetic::div_mod::lemma_fundamental_div_mod(n - 1, d);
    assert(q * d == d * q) by (nonlinear_arith);
    assert(last_size(total, size) == r + 1);
    assert(0 <= i * d && (i + 1) * d == i * d + d) by (nonlinear_arith)
        requires
            0 <= i,
            0 < d,
    ;
    if i < q {
        assert((i + 1) * d <= q * d) by (nonlinear_arith)
            requires
                i + 1 <= q,
                0 < d,
        ;
        let last = last_size(total, size);
        assert(last * d == d * last) by (nonlinear_arith);
    } else {
        assert(i == q);
    }
}

} // verus!
