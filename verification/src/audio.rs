//! Microphones: which one to use, what a recording of it tells, and which recordings to
//! keep.
use vstd::prelude::*;
use crate::moment::{MILLIS_STAMP_FORM, is_moment, now_millis_stamp};
use crate::paths::{HomePath, ends_in_wav, is_wav_name, tmp_dir, wisper_place};
use crate::text::{
    contains, has, list_has, lowercase_of, opt_text, same, texts, texts_of_push, to_lowercase,
};

verus! {

broadcast use texts_of_push;

pub const DEFAULT_DEVICE: &'static str = "default";

// -------------------------------------------------------------------------- levels

/// The bits of the 32-bit float `0.0001`.
pub const SILENT_PEAK: u32 = 0x38d1_b717;

/// The bits of the 32-bit float `0.00005`.
pub const SILENT_RMS: u32 = 0x3851_b717;

/// Peak and RMS amplitude, both from nothing to full scale, as the bits of 32-bit floats.
/// The bits of floats that are not negative are ordered as the floats are.
#[derive(Debug, Clone, Copy, PartialEq, Eq, Structural)]
pub struct Levels {
    pub peak: u32,
    pub rms: u32,
}

impl Levels {
    pub open spec fn silent(self) -> bool {
        self.peak < SILENT_PEAK && self.rms < SILENT_RMS
    }

    /// A real microphone that heard nothing still reports a tiny floor.
    pub fn is_silent(&self) -> (r: bool)
        ensures
            r == self.silent(),
    {
        self.peak < SILENT_PEAK && self.rms < SILENT_RMS
    }
}

impl Default for Levels {
    fn default() -> (r: Self)
        ensures
            r.peak == 0,
            r.rms == 0,
    {
        Levels { peak: 0, rms: 0 }
    }
}

// ------------------------------------------------------------------------- devices

#[derive(Debug, Clone)]
pub struct DeviceProbe {
    pub device: String,
    /// How loud the device was, as the bits of a float that is not negative.
    pub score: u32,
    pub ok: bool,
    pub has_signal: bool,
    pub error: Option<String>,
}

/// What opening a device for a moment found.
///
/// `ok` only means the device opened. A user can be silent during the probe, so a zero
/// level must never make a real microphone look broken: signal is a ranking preference, not
/// a pass or a failure.
pub fn probe_result(name: &str, outcome: Result<(Levels, u32), String>) -> (r: DeviceProbe)
    ensures
        r.device@ == name@,
        match outcome {
            Ok((levels, score)) => r.ok && r.score == score && r.has_signal == !levels.silent()
                && r.error is None,
            Err(e) => !r.ok && r.score == 0 && !r.has_signal && opt_text(r.error) == Some(e@),
        },
{
    match outcome {
        Ok((levels, score)) => DeviceProbe {
            device: name.to_owned(),
            score,
            ok: true,
            has_signal: !levels.is_silent(),
            error: None,
        },
        Err(e) => DeviceProbe {
            device: name.to_owned(),
            score: 0,
            ok: false,
            has_signal: false,
            error: Some(e),
        },
    }
}

/// Whether a device name in lower case has a mark of a loopback or virtual cable.
pub open spec fn has_virtual_mark(lower: Seq<char>) -> bool {
    ||| has(lower, "virtual"@)
    ||| has(lower, "relay"@)
    ||| has(lower, "cable"@)
    ||| has(lower, "vb-audio"@)
    ||| has(lower, "voicemeeter"@)
    ||| has(lower, "loopback"@)
    ||| has(lower, "aggregate"@)
}

pub open spec fn is_virtual(device: Seq<char>) -> bool {
    has_virtual_mark(lowercase_of(device))
}

/// Whether a device name that is in lower case has a virtual mark.
pub fn is_virtual_in(lower: &str) -> (r: bool)
    ensures
        r == has_virtual_mark(lower@),
{
    contains(lower, "virtual") || contains(lower, "relay") || contains(lower, "cable") || contains(
        lower,
        "vb-audio",
    ) || contains(lower, "voicemeeter") || contains(lower, "loopback") || contains(
        lower,
        "aggregate",
    )
}

/// Loopback and virtual cables enumerate like microphones but usually carry no live input,
/// so they are ranked last rather than hidden.
pub fn is_likely_virtual(device: &str) -> (r: bool)
    ensures
        r == is_virtual(device@),
{
    is_virtual_in(to_lowercase(device).as_str())
}

/// The device a name asks for. `None` means the system default.
pub open spec fn asked_device(name: Option<Seq<char>>) -> Option<Seq<char>> {
    match name {
        Some(n) => if n == DEFAULT_DEVICE@ || n.len() == 0 {
            None
        } else {
            Some(n)
        },
        None => None,
    }
}

pub fn named_device(name: &Option<String>) -> (r: Option<String>)
    ensures
        opt_text(r) == asked_device(opt_text(*name)),
{
    match name {
        Some(n) => if same(n.as_str(), DEFAULT_DEVICE) || n.as_str().is_empty() {
            None
        } else {
            Some(n.clone())
        },
        None => None,
    }
}

pub fn missing_microphone(name: &str) -> (r: String)
    ensures
        r@ == "Microphone \""@ + name@ + "\" is not available. Run: wisper mic --auto"@,
{
    "Microphone \"".to_owned().concat(name).concat(
        "\" is not available. Run: wisper mic --auto",
    )
}

/// A list with only the first of equal texts.
pub open spec fn first_only(list: Seq<Seq<char>>) -> Seq<Seq<char>>
    decreases list.len(),
{
    if list.len() == 0 {
        list
    } else {
        let before = first_only(list.drop_last());
        if before.contains(list.last()) {
            before
        } else {
            before.push(list.last())
        }
    }
}

/// The devices that are virtual, or those that are not.
pub open spec fn devices_that(devices: Seq<Seq<char>>, wanted: bool) -> Seq<Seq<char>>
    decreases devices.len(),
{
    if devices.len() == 0 {
        devices
    } else {
        let before = devices_that(devices.drop_last(), wanted);
        if is_virtual(devices.last()) == wanted {
            before.push(devices.last())
        } else {
            before
        }
    }
}

pub open spec fn configured_first(configured: Option<Seq<char>>) -> Seq<Seq<char>> {
    match asked_device(configured) {
        Some(n) => seq![n],
        None => Seq::<Seq<char>>::empty(),
    }
}

/// The devices to try: the configured one, then real microphones, then virtual ones, then
/// the system default.
pub open spec fn probing_order(devices: Seq<Seq<char>>, configured: Option<Seq<char>>) -> Seq<
    Seq<char>,
> {
    first_only(
        configured_first(configured) + devices_that(devices, false) + devices_that(devices, true)
            + seq![DEFAULT_DEVICE@],
    )
}

fn pick_devices(devices: &Vec<String>, wanted: bool) -> (r: Vec<String>)
    ensures
        texts(r@) == devices_that(texts(devices@), wanted),
{
    let ghost all = texts(devices@);
    let mut picked: Vec<String> = Vec::new();
    let mut i: usize = 0;
    assert(texts(picked@) =~= all.take(0));
    while i < devices.len()
        invariant
            i <= devices.len(),
            all == texts(devices@),
            texts(picked@) == devices_that(all.take(i as int), wanted),
        decreases devices.len() - i,
    {
        assert(all.take(i + 1).drop_last() == all.take(i as int));
        assert(all.take(i + 1).last() == devices@[i as int]@);
        if is_likely_virtual(devices[i].as_str()) == wanted {
            picked.push(devices[i].clone());
        }
        i = i + 1;
    }
    assert(all.take(i as int) == all);
    picked
}

fn keep_first(list: &Vec<String>) -> (r: Vec<String>)
    ensures
        texts(r@) == first_only(texts(list@)),
{
    let ghost all = texts(list@);
    let mut kept: Vec<String> = Vec::new();
    let mut i: usize = 0;
    assert(texts(kept@) =~= all.take(0));
    while i < list.len()
        invariant
            i <= list.len(),
            all == texts(list@),
            texts(kept@) == first_only(all.take(i as int)),
        decreases list.len() - i,
    {
        assert(all.take(i + 1).drop_last() == all.take(i as int));
        assert(all.take(i + 1).last() == list@[i as int]@);
        if !list_has(&kept, list[i].as_str()) {
            kept.push(list[i].clone());
        }
        i = i + 1;
    }
    assert(all.take(i as int) == all);
    kept
}

pub fn probe_order(devices: &Vec<String>, configured: &Option<String>) -> (r: Vec<String>)
    ensures
        texts(r@) == probing_order(texts(devices@), opt_text(*configured)),
{
    let mut list: Vec<String> = Vec::new();
    if let Some(name) = named_device(configured) {
        list.push(name);
    }
    let ghost first = configured_first(opt_text(*configured));
    assert(texts(list@) =~= first);
    let mut genuine = pick_devices(devices, false);
    let mut others = pick_devices(devices, true);
    let ghost second = devices_that(texts(devices@), false);
    let ghost third = devices_that(texts(devices@), true);
    list.append(&mut genuine);
    assert(texts(list@) =~= first + second);
    list.append(&mut others);
    assert(texts(list@) =~= first + second + third);
    list.push(DEFAULT_DEVICE.to_owned());
    assert(texts(list@) =~= first + second + third + seq![DEFAULT_DEVICE@]);
    keep_first(&list)
}

/// Whether `a` is to be preferred to `b`: a real device, then one that actually heard
/// something, then the strongest signal.
pub open spec fn is_better(a: DeviceProbe, b: DeviceProbe) -> bool {
    if is_virtual(a.device@) != is_virtual(b.device@) {
        is_virtual(b.device@)
    } else if a.has_signal != b.has_signal {
        a.has_signal
    } else {
        a.score > b.score
    }
}

/// The best of the devices that opened. Of equals, the one tried first.
pub open spec fn best_probe(probes: Seq<DeviceProbe>) -> Option<DeviceProbe>
    decreases probes.len(),
{
    if probes.len() == 0 {
        None
    } else {
        let last = probes.last();
        match best_probe(probes.drop_last()) {
            Some(best) => if last.ok && is_better(last, best) {
                Some(last)
            } else {
                Some(best)
            },
            None => if last.ok {
                Some(last)
            } else {
                None
            },
        }
    }
}

/// The first device that is not virtual.
pub open spec fn first_real(devices: Seq<Seq<char>>) -> Option<Seq<char>> {
    let genuine = devices_that(devices, false);
    if genuine.len() > 0 {
        Some(genuine[0])
    } else {
        None
    }
}

/// The device to use: the best that opened, or else a real one, or else the default.
pub open spec fn chosen_device(probes: Seq<DeviceProbe>, devices: Seq<Seq<char>>) -> Seq<char> {
    match best_probe(probes) {
        Some(best) => best.device@,
        None => match first_real(devices) {
            Some(device) => device,
            None => DEFAULT_DEVICE@,
        },
    }
}

fn is_preferred(a: &DeviceProbe, b: &DeviceProbe) -> (r: bool)
    ensures
        r == is_better(*a, *b),
{
    let a_virtual = is_likely_virtual(a.device.as_str());
    let b_virtual = is_likely_virtual(b.device.as_str());
    if a_virtual != b_virtual {
        b_virtual
    } else if a.has_signal != b.has_signal {
        a.has_signal
    } else {
        a.score > b.score
    }
}

pub fn choose_device(probes: &Vec<DeviceProbe>, devices: &Vec<String>) -> (r: String)
    ensures
        r@ == chosen_device(probes@, texts(devices@)),
{
    let mut best: Option<usize> = None;
    let mut i: usize = 0;
    while i < probes.len()
        invariant
            i <= probes.len(),
            match best {
                Some(k) => k < i && best_probe(probes@.take(i as int)) == Some(probes@[k as int]),
                None => best_probe(probes@.take(i as int)) is None,
            },
        decreases probes.len() - i,
    {
        assert(probes@.take(i + 1).drop_last() == probes@.take(i as int));
        assert(probes@.take(i + 1).last() == probes@[i as int]);
        if probes[i].ok {
            match best {
                Some(k) => {
                    if is_preferred(&probes[i], &probes[k]) {
                        best = Some(i);
                    }
                },
                None => {
                    best = Some(i);
                },
            }
        }
        i = i + 1;
    }
    assert(probes@.take(i as int) == probes@);
    match best {
        Some(k) => probes[k].device.clone(),
        None => {
            let genuine = pick_devices(devices, false);
            assert(texts(genuine@).len() == genuine.len());
            if genuine.len() > 0 {
                genuine[0].clone()
            } else {
                DEFAULT_DEVICE.to_owned()
            }
        },
    }
}

/// Of the devices that opened, none is to be preferred to the chosen one.
pub proof fn no_device_is_better_than_the_chosen(probes: Seq<DeviceProbe>, i: int)
    requires
        0 <= i < probes.len(),
        probes[i].ok,
    ensures
        best_probe(probes) is Some,
        best_probe(probes)->0.ok,
        !is_better(probes[i], best_probe(probes)->0),
    decreases probes.len(),
{
    let before = probes.drop_last();
    if i < before.len() {
        no_device_is_better_than_the_chosen(before, i);
        assert(before[i] == probes[i]);
    } else if best_probe(before) is Some {
        best_is_usable(before);
    }
}

proof fn best_is_usable(probes: Seq<DeviceProbe>)
    ensures
        best_probe(probes) is Some ==> best_probe(probes)->0.ok,
    decreases probes.len(),
{
    if probes.len() > 0 {
        best_is_usable(probes.drop_last());
    }
}

// ---------------------------------------------------------------------- recordings

/// The name of a recording that starts at a written moment.
pub open spec fn recording_name(stamp: Seq<char>) -> Seq<char> {
    "recording-"@ + stamp + ".wav"@
}

pub fn recording_name_at(stamp: &str) -> (r: String)
    ensures
        r@ == recording_name(stamp@),
{
    "recording-".to_owned().concat(stamp).concat(".wav")
}

/// Where a recording that starts now is kept.
pub fn new_recording_path() -> (r: HomePath)
    ensures
        r@.len() == 3,
        r@.drop_last() == wisper_place("tmp"@),
        exists|stamp: Seq<char>|
            r@.last() == #[trigger] recording_name(stamp) && is_moment(stamp, MILLIS_STAMP_FORM@),
{
    let stamp = now_millis_stamp();
    let r = tmp_dir().join(recording_name_at(stamp.as_str()).as_str());
    assert(r@.last() == recording_name(stamp@));
    assert(r@.drop_last() =~= wisper_place("tmp"@));
    r
}

/// A file among the recordings, and when it was last written.
#[derive(Debug)]
pub struct RecordingFile {
    pub name: String,
    pub modified: i64,
}

/// Whether `k` comes before `i` when recordings are listed newest first.
pub open spec fn is_newer(files: Seq<RecordingFile>, k: int, i: int) -> bool {
    &&& is_wav_name(files[k].name@)
    &&& files[k].modified > files[i].modified || files[k].modified == files[i].modified && k < i
}

/// How many of the first `n` recordings come before `i`.
pub open spec fn newer_count(files: Seq<RecordingFile>, i: int, n: nat) -> nat
    decreases n,
{
    if n == 0 {
        0
    } else {
        newer_count(files, i, (n - 1) as nat) + if is_newer(files, n - 1, i) {
            1nat
        } else {
            0nat
        }
    }
}

/// Whether a recording is to be deleted: beyond the newest `max_files`, or older than
/// `max_age`. Other files are left alone.
pub open spec fn is_stale(
    files: Seq<RecordingFile>,
    i: int,
    max_files: nat,
    max_age: int,
    now: int,
) -> bool {
    &&& is_wav_name(files[i].name@)
    &&& newer_count(files, i, files.len()) >= max_files || now - files[i].modified > max_age
}

/// Which recordings are stale: keeps the newest `max_files`, drops anything older than
/// `max_age`.
pub fn stale_recordings(
    files: &Vec<RecordingFile>,
    max_files: usize,
    max_age: i64,
    now: i64,
) -> (r: Vec<bool>)
    ensures
        r@.len() == files@.len(),
        forall|i: int|
            0 <= i < files@.len() ==> #[trigger] r@[i] == is_stale(
                files@,
                i,
                max_files as nat,
                max_age as int,
                now as int,
            ),
{
    let mut stale: Vec<bool> = Vec::new();
    let mut i: usize = 0;
    while i < files.len()
        invariant
            i <= files.len(),
            stale@.len() == i,
            forall|j: int|
                0 <= j < i ==> #[trigger] stale@[j] == is_stale(
                    files@,
                    j,
                    max_files as nat,
                    max_age as int,
                    now as int,
                ),
        decreases files.len() - i,
    {
        let mut count: usize = 0;
        let mut k: usize = 0;
        while k < files.len()
            invariant
                i < files.len(),
                k <= files.len(),
                count <= k,
                count == newer_count(files@, i as int, k as nat),
            decreases files.len() - k,
        {
            let newer = files[k].modified > files[i].modified || files[k].modified
                == files[i].modified && k < i;
            if newer && ends_in_wav(files[k].name.as_str()) {
                count = count + 1;
            }
            k = k + 1;
        }
        let too_old = now as i128 - files[i].modified as i128 > max_age as i128;
        stale.push(ends_in_wav(files[i].name.as_str()) && (count >= max_files || too_old));
        i = i + 1;
    }
    stale
}

/// Two recordings never stand at the same place among the newest.
proof fn places_differ(files: Seq<RecordingFile>, i: int, j: int, n: nat)
    requires
        0 <= i < files.len(),
        0 <= j < files.len(),
        is_newer(files, i, j),
        n <= files.len(),
    ensures
        newer_count(files, j, n) >= newer_count(files, i, n) + if i < n {
            1int
        } else {
            0int
        },
    decreases n,
{
    if n > 0 {
        places_differ(files, i, j, (n - 1) as nat);
    }
}

/// The recordings that are kept.
pub open spec fn kept(files: Seq<RecordingFile>, max_files: nat, max_age: int, now: int) -> Set<
    int,
> {
    Set::new(
        |i: int|
            0 <= i < files.len() && is_wav_name(files[i].name@) && !is_stale(
                files,
                i,
                max_files,
                max_age,
                now,
            ),
    )
}

/// No more recordings are kept than asked for.
pub proof fn at_most_so_many_are_kept(
    files: Seq<RecordingFile>,
    max_files: nat,
    max_age: int,
    now: int,
)
    ensures
        kept(files, max_files, max_age, now).finite(),
        kept(files, max_files, max_age, now).len() <= max_files,
{
    let all = kept(files, max_files, max_age, now);
    let place = |i: int| newer_count(files, i, files.len()) as int;
    let places = all.map(place);
    vstd::set_lib::lemma_int_range(0, files.len() as int);
    assert(all.subset_of(vstd::set_lib::set_int_range(0, files.len() as int)));
    vstd::set_lib::lemma_len_subset(all, vstd::set_lib::set_int_range(0, files.len() as int));
    vstd::set_lib::lemma_int_range(0, max_files as int);
    assert(places.subset_of(vstd::set_lib::set_int_range(0, max_files as int)));
    vstd::set_lib::lemma_len_subset(places, vstd::set_lib::set_int_range(0, max_files as int));
    assert(vstd::relations::injective_on(place, all)) by {
        assert forall|i: int, j: int|
            all.contains(i) && all.contains(j) && #[trigger] place(i) == #[trigger] place(
                j,
            ) implies i == j by {
            if i != j {
                if is_newer(files, i, j) {
                    places_differ(files, i, j, files.len());
                } else {
                    places_differ(files, j, i, files.len());
                }
            }
        }
    }
    vstd::set_lib::lemma_map_size(all, places, place);
}

/// The devices of one kind are those, in their order.
pub proof fn devices_of_a_kind_are_all_of_it(devices: Seq<Seq<char>>, wanted: bool)
    ensures
        devices_that(devices, wanted) == devices.filter(
            |d: Seq<char>| is_virtual(d) == wanted,
        ),
    decreases devices.len(),
{
    reveal(Seq::filter);
    if devices.len() > 0 {
        devices_of_a_kind_are_all_of_it(devices.drop_last(), wanted);
    }
}

/// Keeping the first of each leaves every member, each once, in the order of their first places.
pub proof fn each_is_listed_once(list: Seq<Seq<char>>)
    ensures
        first_only(list).no_duplicates(),
        forall|t: Seq<char>| #[trigger] first_only(list).contains(t) <==> list.contains(t),
        list.len() > 0 ==> first_only(list).len() > 0 && first_only(list)[0] == list[0],
        first_only(list).len() <= list.len(),
    decreases list.len(),
{
    if list.len() > 0 {
        let front = list.drop_last();
        let before = first_only(front);
        let last = list.last();
        each_is_listed_once(front);
        let all = first_only(list);
        assert forall|t: Seq<char>| #[trigger] all.contains(t) <==> list.contains(t) by {
            if list.contains(t) {
                let k = choose|k: int| 0 <= k < list.len() && list[k] == t;
                if k < front.len() {
                    assert(front[k] == t);
                    assert(before.contains(t));
                    let m = choose|m: int| 0 <= m < before.len() && before[m] == t;
                    assert(all[m] == t);
                } else if !before.contains(last) {
                    assert(all[all.len() - 1] == t);
                }
            }
            if all.contains(t) {
                let m = choose|m: int| 0 <= m < all.len() && all[m] == t;
                if m < before.len() {
                    assert(before[m] == t);
                    assert(before.contains(t));
                    let k = choose|k: int| 0 <= k < front.len() && front[k] == t;
                    assert(list[k] == t);
                } else {
                    assert(list[list.len() - 1] == t);
                }
            }
        }
        if front.len() == 0 {
            assert(before =~= Seq::<Seq<char>>::empty());
        }
    }
}

/// Probing leaves out no device and tries none twice. The configured one comes first, where it
/// is a device of its own, and the system default is always tried.
#[verifier::spinoff_prover]
pub proof fn every_device_is_probed_once(
    devices: Seq<Seq<char>>,
    configured: Option<Seq<char>>,
    i: int,
)
    ensures
        probing_order(devices, configured).no_duplicates(),
        0 <= i < devices.len() ==> probing_order(devices, configured).contains(devices[i]),
        probing_order(devices, configured).contains("default"@),
        configured is Some && configured->0 != "default"@ && configured->0.len() > 0
            ==> probing_order(devices, configured)[0] == configured->0,
        forall|t: Seq<char>|
            #[trigger] probing_order(devices, configured).contains(t) ==> devices.contains(t) || t
                == "default"@ || configured == Some(t),
{
    let a = configured_first(configured);
    let b = devices_that(devices, false);
    let c = devices_that(devices, true);
    let all = a + b + c + seq![DEFAULT_DEVICE@];
    each_is_listed_once(all);
    devices_of_a_kind_are_all_of_it(devices, false);
    devices_of_a_kind_are_all_of_it(devices, true);
    assert(all[all.len() - 1] == "default"@);
    let genuine = |d: Seq<char>| is_virtual(d) == false;
    let made = |d: Seq<char>| is_virtual(d) == true;
    if 0 <= i < devices.len() {
        let d = devices[i];
        if is_virtual(d) {
            assert(made(d));
            devices.lemma_filter_contains(made, i);
            assert(c.contains(d));
            let k = choose|k: int| 0 <= k < c.len() && c[k] == d;
            assert(all[a.len() + b.len() + k] == d);
        } else {
            assert(genuine(d));
            devices.lemma_filter_contains(genuine, i);
            assert(b.contains(d));
            let k = choose|k: int| 0 <= k < b.len() && b[k] == d;
            assert(all[a.len() + k] == d);
        }
        assert(all.contains(d));
    }
    assert forall|t: Seq<char>| #[trigger]
        probing_order(devices, configured).contains(t) implies devices.contains(t) || t
        == "default"@ || configured == Some(t) by {
        assert(all.contains(t));
        let k = choose|k: int| 0 <= k < all.len() && all[k] == t;
        if k < a.len() {
            assert(a[k] == t);
        } else if k < a.len() + b.len() {
            assert(b[k - a.len()] == t);
            assert(b.contains(t));
            devices.lemma_filter_contains_rev(genuine, t);
        } else if k < a.len() + b.len() + c.len() {
            assert(c[k - a.len() - b.len()] == t);
            assert(c.contains(t));
            devices.lemma_filter_contains_rev(made, t);
        }
    }
    if configured is Some && configured->0 != "default"@ && configured->0.len() > 0 {
        assert(all[0] == configured->0);
    }
}

/// The device that is chosen is one that was probed and works. A virtual one is chosen only where
/// no real one works, one without a signal only where none of its kind has any, and of those that
/// are alike in both the loudest.
pub proof fn the_best_device_is_real_and_loudest(probes: Seq<DeviceProbe>, i: int)
    requires
        0 <= i < probes.len(),
        probes[i].ok,
    ensures
        ({
            let best = best_probe(probes)->0;
            &&& best_probe(probes) is Some
            &&& probes.contains(best) && best.ok
            &&& is_virtual(best.device@) ==> is_virtual(probes[i].device@)
            &&& is_virtual(best.device@) == is_virtual(probes[i].device@) && probes[i].has_signal
                ==> best.has_signal
            &&& is_virtual(best.device@) == is_virtual(probes[i].device@) && probes[i].has_signal
                == best.has_signal ==> probes[i].score <= best.score
        }),
{
    no_device_is_better_than_the_chosen(probes, i);
    best_is_a_probe(probes);
}

proof fn best_is_a_probe(probes: Seq<DeviceProbe>)
    ensures
        best_probe(probes) is Some ==> probes.contains(best_probe(probes)->0),
    decreases probes.len(),
{
    if probes.len() > 0 {
        let front = probes.drop_last();
        best_is_a_probe(front);
        assert(probes[probes.len() - 1] == probes.last());
        if best_probe(front) is Some && best_probe(probes) == best_probe(front) {
            let k = choose|k: int| 0 <= k < front.len() && front[k] == best_probe(front)->0;
            assert(probes[k] == best_probe(front)->0);
        }
    }
}

/// Cleaning up takes the oldest recordings: none that is kept is older than one that is taken.
/// Other files are never taken, and where there are few and none is old, none is.
pub proof fn the_oldest_recordings_go(
    files: Seq<RecordingFile>,
    i: int,
    j: int,
    max_files: nat,
    max_age: int,
    now: int,
)
    requires
        0 <= i < files.len(),
        0 <= j < files.len(),
    ensures
        is_stale(files, i, max_files, max_age, now) ==> is_wav_name(files[i].name@),
        is_stale(files, i, max_files, max_age, now) && is_wav_name(files[j].name@) && !is_stale(
            files,
            j,
            max_files,
            max_age,
            now,
        ) ==> files[j].modified >= files[i].modified,
        now - files[i].modified > max_age && is_wav_name(files[i].name@) ==> is_stale(
            files,
            i,
            max_files,
            max_age,
            now,
        ),
        files.len() <= max_files && now - files[i].modified <= max_age ==> !is_stale(
            files,
            i,
            max_files,
            max_age,
            now,
        ),
{
    if files[j].modified < files[i].modified {
        fewer_are_newer(files, i, j, files.len());
    }
    not_newer_than_itself(files, i, files.len());
}

proof fn fewer_are_newer(files: Seq<RecordingFile>, i: int, j: int, n: nat)
    requires
        n <= files.len(),
        files[j].modified < files[i].modified,
    ensures
        newer_count(files, i, n) <= newer_count(files, j, n),
    decreases n,
{
    if n > 0 {
        fewer_are_newer(files, i, j, (n - 1) as nat);
    }
}

proof fn not_newer_than_itself(files: Seq<RecordingFile>, i: int, n: nat)
    requires
        n <= files.len(),
        0 <= i < files.len(),
    ensures
        newer_count(files, i, n) <= n,
        n > i ==> newer_count(files, i, n) < n,
    decreases n,
{
    if n > 0 {
        not_newer_than_itself(files, i, (n - 1) as nat);
    }
}

/// A recording counts as silent where both its peak and its mean are below what can be heard.
pub proof fn one_loud_moment_is_enough(levels: Levels)
    ensures
        !levels.silent() <==> levels.peak >= 0x38d1_b717 || levels.rms >= 0x3851_b717,
{
}

/// What comes first stays first: the order of a longer list begins with that of a shorter one.
pub proof fn what_comes_first_stays_first(list: Seq<Seq<char>>, k: int)
    requires
        0 <= k <= list.len(),
    ensures
        first_only(list.take(k)).is_prefix_of(first_only(list)),
    decreases list.len() - k,
{
    if k == list.len() {
        assert(list.take(k) =~= list);
        assert(first_only(list).subrange(0, first_only(list).len() as int) =~= first_only(list));
    } else {
        what_comes_first_stays_first(list, k + 1);
        let more = list.take(k + 1);
        assert(more.drop_last() =~= list.take(k));
        let a = first_only(list.take(k));
        let b = first_only(more);
        let c = first_only(list);
        assert(b.subrange(0, a.len() as int) =~= a);
        assert(c.subrange(0, b.len() as int) == b);
        assert(c.subrange(0, a.len() as int) =~= b.subrange(0, a.len() as int));
    }
}

/// Real devices are tried before virtual ones, each kind in the order in which it was found.
pub proof fn real_devices_are_tried_first(
    devices: Seq<Seq<char>>,
    configured: Option<Seq<char>>,
)
    ensures
        first_only(
            configured_first(configured) + devices.filter(|d: Seq<char>| is_virtual(d) == false),
        ).is_prefix_of(probing_order(devices, configured)),
{
    devices_of_a_kind_are_all_of_it(devices, false);
    let genuine = configured_first(configured) + devices_that(devices, false);
    let all = genuine + devices_that(devices, true) + seq![DEFAULT_DEVICE@];
    what_comes_first_stays_first(all, genuine.len() as int);
    assert(all.take(genuine.len() as int) =~= genuine);
}

/// The device that is used is the best that works, else the first real one, else the default.
pub proof fn the_best_working_device_is_used(
    probes: Seq<DeviceProbe>,
    devices: Seq<Seq<char>>,
    i: int,
)
    ensures
        0 <= i < probes.len() && probes[i].ok ==> best_probe(probes) is Some && chosen_device(
            probes,
            devices,
        ) == best_probe(probes)->0.device@,
        best_probe(probes) is None && 0 <= i < devices.len() && !is_virtual(devices[i]) && (
        forall|k: int| 0 <= k < i ==> is_virtual(#[trigger] devices[k])) ==> chosen_device(
            probes,
            devices,
        ) == devices[i],
        best_probe(probes) is None && (forall|k: int|
            0 <= k < devices.len() ==> is_virtual(#[trigger] devices[k])) ==> chosen_device(
            probes,
            devices,
        ) == "default"@,
{
    if 0 <= i < probes.len() && probes[i].ok {
        no_device_is_better_than_the_chosen(probes, i);
    }
    if 0 <= i < devices.len() && !is_virtual(devices[i]) && (forall|k: int|
        0 <= k < i ==> is_virtual(#[trigger] devices[k])) {
        the_first_real_one(devices, i);
    }
    if forall|k: int| 0 <= k < devices.len() ==> is_virtual(#[trigger] devices[k]) {
        none_is_real(devices);
    }
}

proof fn the_first_real_one(devices: Seq<Seq<char>>, i: int)
    requires
        0 <= i < devices.len(),
        !is_virtual(devices[i]),
        forall|k: int| 0 <= k < i ==> is_virtual(#[trigger] devices[k]),
    ensures
        devices_that(devices, false).len() > 0,
        devices_that(devices, false)[0] == devices[i],
    decreases devices.len(),
{
    let front = devices.drop_last();
    if i < front.len() {
        assert(front[i] == devices[i]);
        the_first_real_one(front, i);
    } else {
        none_is_real(front);
    }
}

proof fn none_is_real(devices: Seq<Seq<char>>)
    requires
        forall|k: int| 0 <= k < devices.len() ==> is_virtual(#[trigger] devices[k]),
    ensures
        devices_that(devices, false).len() == 0,
    decreases devices.len(),
{
    if devices.len() > 0 {
        assert(is_virtual(devices[devices.len() - 1]));
        none_is_real(devices.drop_last());
    }
}

} // verus!
