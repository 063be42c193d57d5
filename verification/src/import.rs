//! Bringing existing audio in: a local file, or a remote URL.
//!
//! The original bytes go to the provider as they arrived. A converted copy is only for
//! cutting a sample, and where none can be made, the sample check is skipped and said so.
use vstd::prelude::*;
use crate::chat::{is_success, succeeded};
use crate::number::{decimal, to_decimal};
use crate::paths::{extension_of_name, file_name_of, path_extension};
use crate::text::{
    ascii_lower, equal_to, first_piece_grows, first_piece_stays, has, is_space, lower_char,
    lowercase_of, opt_text, same, split, split_at, split_by, split_is_never_empty,
    split_of_changed, split_of_one_piece, stands_inside, starts_with, strip_prefix, texts, to_ascii_lowercase,
    to_lowercase, trim, trimmed, trimming_forgets_padding, trimming_keeps_case_apart,
    without_prefix,
};
use crate::wav::{info, wav_header};

verus! {

/// Absurd downloads are refused rather than filling the disk.
pub const MAX_DOWNLOAD_BYTES: u64 = 4_294_967_296;

/// Anything smaller is not audio.
pub const MIN_AUDIO_BYTES: usize = 1024;

/// An import ready for the pipeline.
#[derive(Debug)]
pub struct Imported {
    /// What goes to the provider: the original bytes.
    pub audio: String,
    /// A WAV the sample gate can slice, when one was made for it.
    pub sampleable: Option<String>,
    /// Why the sample gate cannot run, when it cannot.
    pub gate_blocked: Option<String>,
    pub downloaded: bool,
}

// ------------------------------------------------------------------------- sources

/// Whether a source, trimmed and in lower case, is a remote one.
pub open spec fn has_remote_scheme(lower: Seq<char>) -> bool {
    "http://"@.is_prefix_of(lower) || "https://"@.is_prefix_of(lower)
}

pub fn is_remote_in(lower: &str) -> (r: bool)
    ensures
        r == has_remote_scheme(lower@),
{
    starts_with(lower, "http://") || starts_with(lower, "https://")
}

pub fn is_remote(source: &str) -> (r: bool)
    ensures
        r == has_remote_scheme(lowercase_of(trimmed(source@))),
{
    is_remote_in(to_lowercase(trim(source).as_str()).as_str())
}

/// The path that a local source names.
pub fn local_path(source: &str) -> (r: String)
    ensures
        r@ == without_prefix(trimmed(source@), "file://"@),
{
    strip_prefix(trim(source).as_str(), "file://")
}

pub open spec fn opt_lower(e: Option<Seq<char>>) -> Option<Seq<char>> {
    match e {
        Some(e) => Some(lowercase_of(e)),
        None => None,
    }
}

pub fn extension_of(path: &str, target_os: &str) -> (r: Option<String>)
    ensures
        opt_text(r) == opt_lower(path_extension(path@, target_os@)),
{
    match file_name_of(path, target_os) {
        Some(name) => match extension_of_name(name.as_str()) {
            Some(e) => Some(to_lowercase(e.as_str())),
            None => None,
        },
        None => None,
    }
}

pub fn is_wav(path: &str, target_os: &str) -> (r: bool)
    ensures
        r == (opt_lower(path_extension(path@, target_os@)) == Some("wav"@)),
{
    match extension_of(path, target_os) {
        Some(e) => same(e.as_str(), "wav"),
        None => false,
    }
}

/// Whether a slice can be cut from a file directly, given its bytes.
pub fn sliceable(path: &str, bytes: &[u8], target_os: &str) -> (r: bool)
    ensures
        r == (opt_lower(path_extension(path@, target_os@)) == Some("wav"@) && wav_header(bytes@) is Some),
{
    is_wav(path, target_os) && info(bytes).is_some()
}

/// The name that an import is stored under.
pub open spec fn stored_name(extension: Seq<char>) -> Seq<char> {
    "audio."@ + extension
}

pub fn name_with(extension: &str) -> (r: String)
    ensures
        r@ == stored_name(extension@),
{
    "audio.".to_owned().concat(extension)
}

/// The name that a local file is stored under: its extension is kept.
pub fn local_name(path: &str, target_os: &str) -> (r: String)
    ensures
        r@ == stored_name(
            match opt_lower(path_extension(path@, target_os@)) {
                Some(e) => e,
                None => "wav"@,
            },
        ),
{
    match extension_of(path, target_os) {
        Some(e) => name_with(e.as_str()),
        None => name_with("wav"),
    }
}

pub fn missing_file(path: &str) -> (r: String)
    ensures
        r@ == "Audio file not found: "@ + path@,
{
    "Audio file not found: ".to_owned().concat(path)
}

// ------------------------------------------------------------------------- formats

/// Formats the provider documents as accepted, so they can be submitted untouched.
pub open spec fn is_accepted(e: Seq<char>) -> bool {
    ||| e == "wav"@
    ||| e == "mp3"@
    ||| e == "aac"@
    ||| e == "aiff"@
    ||| e == "ogg"@
    ||| e == "opus"@
    ||| e == "flac"@
    ||| e == "mp4"@
    ||| e == "m4a"@
    ||| e == "amr"@
    ||| e == "wma"@
    ||| e == "webm"@
    ||| e == "pcm"@
}

pub fn is_supported_extension(e: &str) -> (r: bool)
    ensures
        r == is_accepted(e@),
{
    same(e, "wav") || same(e, "mp3") || same(e, "aac") || same(e, "aiff") || same(e, "ogg") || same(
        e,
        "opus",
    ) || same(e, "flac") || same(e, "mp4") || same(e, "m4a") || same(e, "amr") || same(e, "wma")
        || same(e, "webm") || same(e, "pcm")
}

/// What is logged of an import whose extension the provider may reject.
pub fn extension_note(path: &str, target_os: &str) -> (r: Option<String>)
    ensures
        match opt_lower(path_extension(path@, target_os@)) {
            Some(e) => if is_accepted(e) {
                r is None
            } else {
                opt_text(r) == Some(
                    "Imported audio has an unrecognised extension (."@ + e
                        + "); Sarvam may reject it."@,
                )
            },
            None => r is None,
        },
{
    match extension_of(path, target_os) {
        Some(e) => if is_supported_extension(e.as_str()) {
            None
        } else {
            Some(
                "Imported audio has an unrecognised extension (.".to_owned().concat(
                    e.as_str(),
                ).concat("); Sarvam may reject it."),
            )
        },
        None => None,
    }
}

/// The extension for a content type, which is trimmed and in lower case.
pub open spec fn type_extension(t: Seq<char>) -> Option<Seq<char>> {
    if t == "audio/wav"@ || t == "audio/x-wav"@ || t == "audio/wave"@ {
        Some("wav"@)
    } else if t == "audio/mpeg"@ || t == "audio/mp3"@ {
        Some("mp3"@)
    } else if t == "audio/mp4"@ || t == "audio/x-m4a"@ {
        Some("m4a"@)
    } else if t == "audio/aac"@ {
        Some("aac"@)
    } else if t == "audio/ogg"@ || t == "application/ogg"@ {
        Some("ogg"@)
    } else if t == "audio/opus"@ {
        Some("opus"@)
    } else if t == "audio/flac"@ || t == "audio/x-flac"@ {
        Some("flac"@)
    } else if t == "audio/webm"@ || t == "video/webm"@ {
        Some("webm"@)
    } else if t == "video/mp4"@ {
        Some("mp4"@)
    } else {
        None
    }
}

/// The extension for a content type without parameters, in lower case.
pub fn extension_for_type(t: &str) -> (r: Option<String>)
    ensures
        opt_text(r) == type_extension(t@),
{
    if same(t, "audio/wav") || same(t, "audio/x-wav") || same(t, "audio/wave") {
        Some("wav".to_owned())
    } else if same(t, "audio/mpeg") || same(t, "audio/mp3") {
        Some("mp3".to_owned())
    } else if same(t, "audio/mp4") || same(t, "audio/x-m4a") {
        Some("m4a".to_owned())
    } else if same(t, "audio/aac") {
        Some("aac".to_owned())
    } else if same(t, "audio/ogg") || same(t, "application/ogg") {
        Some("ogg".to_owned())
    } else if same(t, "audio/opus") {
        Some("opus".to_owned())
    } else if same(t, "audio/flac") || same(t, "audio/x-flac") {
        Some("flac".to_owned())
    } else if same(t, "audio/webm") || same(t, "video/webm") {
        Some("webm".to_owned())
    } else if same(t, "video/mp4") {
        Some("mp4".to_owned())
    } else {
        None
    }
}

/// The part of a content type header before its parameters.
pub open spec fn type_part(content_type: Seq<char>) -> Seq<char> {
    trimmed(split_at(content_type, ';')[0])
}

/// The type that a content type header names. Only ASCII can name one of those known here, so
/// no other letters are brought into lower case.
pub open spec fn bare_type(content_type: Seq<char>) -> Seq<char> {
    ascii_lower(type_part(content_type))
}

pub fn extension_for_content_type(content_type: &str) -> (r: Option<String>)
    ensures
        opt_text(r) == type_extension(bare_type(content_type@)),
{
    let parts = split(content_type, ';');
    proof {
        split_is_never_empty(content_type@, equal_to(';'));
    }
    assert(parts@.len() == texts(parts@).len());
    extension_for_type(to_ascii_lowercase(trim(parts[0].as_str()).as_str()).as_str())
}

/// Every extension that a content type is given is one the provider accepts.
pub proof fn mapped_extensions_are_accepted(t: Seq<char>)
    requires
        type_extension(t) is Some,
    ensures
        is_accepted(type_extension(t)->0),
{
}

/// The parameters of a content type do not matter: whatever follows a semicolon.
pub proof fn parameters_do_not_matter(content_type: Seq<char>, parameters: Seq<char>)
    ensures
        type_extension(bare_type(content_type + seq![';'] + parameters)) == type_extension(
            bare_type(content_type),
        ),
{
    let p = equal_to(';');
    let ended = content_type + seq![';'];
    split_is_never_empty(content_type, p);
    assert(ended.drop_last() =~= content_type);
    assert(split_by(ended, p)[0] == split_by(content_type, p)[0]);
    first_piece_stays(ended, parameters, p);
}

/// White space around a content type does not matter.
pub proof fn spacing_does_not_change_a_type(
    before: Seq<char>,
    content_type: Seq<char>,
    after: Seq<char>,
)
    requires
        forall|i: int| 0 <= i < before.len() ==> is_space(#[trigger] before[i]),
        forall|i: int| 0 <= i < after.len() ==> is_space(#[trigger] after[i]),
    ensures
        type_extension(bare_type(before + content_type + after)) == type_extension(
            bare_type(content_type),
        ),
{
    let p = equal_to(';');
    let empty = Seq::<char>::empty();
    let first = split_by(content_type, p)[0];
    split_is_never_empty(content_type, p);
    first_piece_grows(before, content_type, p);
    let padded = before + content_type;
    assert(split_by(padded, p)[0] == before + first);
    if split_by(padded, p).len() >= 2 {
        first_piece_stays(padded, after, p);
        trimming_forgets_padding(before, first, empty);
        assert(before + first + empty == before + first);
    } else {
        split_is_never_empty(padded, p);
        split_of_one_piece(padded, p);
        split_of_one_piece(content_type, p);
        split_of_one_piece(after, p);
        first_piece_grows(padded, after, p);
        trimming_forgets_padding(before, content_type, after);
    }
}

/// Letter case does not matter in a content type.
pub proof fn letter_case_does_not_change_a_type(a: Seq<char>, b: Seq<char>)
    requires
        ascii_lower(a) == ascii_lower(b),
    ensures
        type_extension(bare_type(a)) == type_extension(bare_type(b)),
{
    type_part_in_lower_case(a);
    type_part_in_lower_case(b);
}

proof fn type_part_in_lower_case(content_type: Seq<char>)
    ensures
        type_part(ascii_lower(content_type)) == ascii_lower(type_part(content_type)),
{
    let p = equal_to(';');
    split_is_never_empty(content_type, p);
    split_of_changed(content_type, |c: char| lower_char(c), p);
    trimming_keeps_case_apart(split_by(content_type, p)[0]);
}

// ----------------------------------------------------------------------- downloads

/// The path of the URL that `reqwest::Url::parse` reads, where it is a URL.
pub uninterp spec fn url_path(url: Seq<char>) -> Option<Seq<char>>;

/// `reqwest::Url::parse` and `path`. The outcome depends on the text alone.
#[verifier::external_body]
fn parse_url_path(url: &str) -> (r: Option<String>)
    ensures
        opt_text(r) == url_path(url@),
{
    reqwest::Url::parse(url).ok().map(|parsed| parsed.path().to_string())
}

/// What is reported of a reply that cannot be used.
pub open spec fn download_refusal(url: Seq<char>, status: u16, length: Option<u64>) -> Option<
    Seq<char>,
> {
    if !is_success(status) {
        Some("Could not download "@ + url + ": HTTP "@ + decimal(status as nat))
    } else if length is Some && length->0 > MAX_DOWNLOAD_BYTES {
        Some(
            "That file is "@ + gigabytes(length->0 as nat)
                + " GB, which is larger than this will download."@,
        )
    } else {
        None
    }
}

/// Tenths of gigabytes, rounded to the nearest, an exact half to the even one.
pub open spec fn tenths_of_gigabytes(bytes: nat) -> nat {
    let q = bytes * 10 / 1_073_741_824;
    let r = bytes * 10 % 1_073_741_824;
    if r > 536_870_912 || r == 536_870_912 && q % 2 == 1 {
        q + 1
    } else {
        q
    }
}

/// A size in gigabytes with one decimal.
pub open spec fn gigabytes(bytes: nat) -> Seq<char> {
    decimal(tenths_of_gigabytes(bytes) / 10) + "."@ + decimal(tenths_of_gigabytes(bytes) % 10)
}

fn gigabytes_text(bytes: u64) -> (r: String)
    ensures
        r@ == gigabytes(bytes as nat),
{
    let scaled: u128 = bytes as u128 * 10;
    let q: u64 = (scaled / 1_073_741_824) as u64;
    let rest: u128 = scaled % 1_073_741_824;
    let tenths: u64 = if rest > 536_870_912 || (rest == 536_870_912 && q % 2 == 1) {
        q + 1
    } else {
        q
    };
    to_decimal(tenths / 10).concat(".").concat(to_decimal(tenths % 10).as_str())
}

/// Refuses a reply that reports an error or announces too much.
pub fn refuse_download(url: &str, status: u16, length: Option<u64>) -> (r: Option<String>)
    ensures
        opt_text(r) == download_refusal(url@, status, length),
{
    if !succeeded(status) {
        return Some(
            "Could not download ".to_owned().concat(url).concat(": HTTP ").concat(
                to_decimal(status as u64).as_str(),
            ),
        );
    }
    match length {
        Some(n) => if n > MAX_DOWNLOAD_BYTES {
            Some(
                "That file is ".to_owned().concat(gigabytes_text(n).as_str()).concat(
                    " GB, which is larger than this will download.",
                ),
            )
        } else {
            None
        },
        None => None,
    }
}

/// The extension of a URL's path, where it is an accepted one.
pub open spec fn path_choice(path: Seq<char>, target_os: Seq<char>) -> Option<Seq<char>> {
    match opt_lower(path_extension(path, target_os)) {
        Some(e) => if is_accepted(e) {
            Some(e)
        } else {
            None
        },
        None => None,
    }
}

/// The extension of a download: the URL's own, or else the content type's, or else `wav`.
pub open spec fn chosen_extension(
    path: Seq<char>,
    content_type: Option<Seq<char>>,
    target_os: Seq<char>,
) -> Seq<char> {
    match path_choice(path, target_os) {
        Some(e) => e,
        None => match content_type {
            Some(t) => match type_extension(bare_type(t)) {
                Some(e) => e,
                None => "wav"@,
            },
            None => "wav"@,
        },
    }
}

/// The extension of a download, given the path of its URL.
pub fn choose_extension(path: &str, content_type: &Option<String>, target_os: &str) -> (r: String)
    ensures
        r@ == chosen_extension(path@, opt_text(*content_type), target_os@),
{
    if let Some(e) = extension_of(path, target_os) {
        if is_supported_extension(e.as_str()) {
            return e;
        }
    }
    match content_type {
        Some(t) => match extension_for_content_type(t.as_str()) {
            Some(e) => e,
            None => "wav".to_owned(),
        },
        None => "wav".to_owned(),
    }
}

/// The name that a download is stored under, or why there is none.
pub fn download_name(url: &str, content_type: &Option<String>, target_os: &str) -> (r: Result<
    String,
    String,
>)
    ensures
        match r {
            Ok(name) => url_path(url@) is Some && name@ == stored_name(
                chosen_extension(url_path(url@)->0, opt_text(*content_type), target_os@),
            ),
            Err(e) => url_path(url@) is None && e@ == "Not a valid URL: "@ + url@,
        },
{
    match parse_url_path(url) {
        Some(path) => Ok(name_with(choose_extension(path.as_str(), content_type, target_os).as_str())),
        None => Err("Not a valid URL: ".to_owned().concat(url)),
    }
}

/// Refuses a body that is too small to be audio.
pub fn refuse_body(len: usize) -> (r: Option<String>)
    ensures
        opt_text(r) == if len < MIN_AUDIO_BYTES {
            Some("That URL returned only "@ + decimal(len as nat) + " bytes, which is not audio."@)
        } else {
            None
        },
{
    if len < MIN_AUDIO_BYTES {
        Some(
            "That URL returned only ".to_owned().concat(to_decimal(len as u64).as_str()).concat(
                " bytes, which is not audio.",
            ),
        )
    } else {
        None
    }
}

// ---------------------------------------------------------------------- conversion

/// The lines of a text. A break at the very end starts no further line.
pub open spec fn lines_of(t: Seq<char>) -> Seq<Seq<char>> {
    let parts = split_at(t, '\n');
    if parts.last().len() == 0 {
        parts.drop_last()
    } else {
        parts
    }
}

/// What a failed conversion is reported as: the last line that the converter printed.
pub open spec fn converter_failure(stderr: Seq<char>) -> Seq<char> {
    "ffmpeg failed: "@ + if lines_of(stderr).len() == 0 {
        "unknown error"@
    } else {
        trimmed(lines_of(stderr).last())
    }
}

pub fn converter_error(stderr: &str) -> (r: String)
    ensures
        r@ == converter_failure(stderr@),
{
    let parts = split(stderr, '\n');
    proof {
        split_is_never_empty(stderr@, equal_to('\n'));
    }
    let ghost all = texts(parts@);
    assert(parts@.len() == all.len());
    let n = parts.len();
    assert(all.last() == parts@[n - 1]@);
    let last = if parts[n - 1].as_str().is_empty() {
        if n == 1 {
            assert(lines_of(stderr@).len() == 0);
            "unknown error".to_owned()
        } else {
            assert(lines_of(stderr@).last() == parts@[n - 2]@);
            trim(parts[n - 2].as_str())
        }
    } else {
        trim(parts[n - 1].as_str())
    };
    "ffmpeg failed: ".to_owned().concat(last.as_str())
}

/// How a WAV to cut the sample from was come by.
#[derive(Debug)]
pub enum Conversion {
    /// The import itself can be cut.
    NotNeeded,
    /// There is no converter.
    NoConverter,
    Made { path: String },
    Failed { error: String },
}

pub open spec fn blocked_reason(c: Conversion) -> Option<Seq<char>> {
    match c {
        Conversion::NotNeeded => None,
        Conversion::Made { .. } => None,
        Conversion::NoConverter => Some(
            "The sample quality check needs a WAV to cut from, and ffmpeg is not installed to make one. The whole file will be transcribed in one pass instead."@,
        ),
        Conversion::Failed { error } => Some(
            "Could not build a WAV for the sample check ("@ + error@
                + "). The whole file will be transcribed in one pass instead."@,
        ),
    }
}

/// The import that a conversion leads to.
pub fn imported(audio: String, downloaded: bool, conversion: Conversion) -> (r: Imported)
    ensures
        r.audio@ == audio@,
        r.downloaded == downloaded,
        opt_text(r.gate_blocked) == blocked_reason(conversion),
        opt_text(r.sampleable) == match conversion {
            Conversion::Made { path } => Some(path@),
            _ => None,
        },
{
    match conversion {
        Conversion::NotNeeded => Imported {
            audio,
            sampleable: None,
            gate_blocked: None,
            downloaded,
        },
        Conversion::NoConverter => Imported {
            audio,
            sampleable: None,
            gate_blocked: Some(
                "The sample quality check needs a WAV to cut from, and ffmpeg is not installed to make one. The whole file will be transcribed in one pass instead.".to_owned(),
            ),
            downloaded,
        },
        Conversion::Made { path } => Imported {
            audio,
            sampleable: Some(path),
            gate_blocked: None,
            downloaded,
        },
        Conversion::Failed { error } => Imported {
            audio,
            sampleable: None,
            gate_blocked: Some(
                "Could not build a WAV for the sample check (".to_owned().concat(
                    error.as_str(),
                ).concat("). The whole file will be transcribed in one pass instead."),
            ),
            downloaded,
        },
    }
}

/// An import is stored under an extension that is accepted: that of its path where it is one, else
/// that of its type, else that of a plain recording.
pub proof fn an_import_keeps_its_extension(
    path: Seq<char>,
    content_type: Option<Seq<char>>,
    target_os: Seq<char>,
)
    ensures
        ({
            let own = path_extension(path, target_os);
            let chosen = chosen_extension(path, content_type, target_os);
            &&& is_accepted(chosen)
            &&& own is Some && is_accepted(lowercase_of(own->0)) ==> chosen == lowercase_of(own->0)
            &&& (own is None || !is_accepted(lowercase_of(own->0))) && content_type is Some
                && type_extension(bare_type(content_type->0)) is Some ==> chosen == type_extension(
                bare_type(content_type->0),
            )->0
            &&& chosen.is_suffix_of(stored_name(chosen))
        }),
{
    if content_type is Some && type_extension(bare_type(content_type->0)) is Some {
        mapped_extensions_are_accepted(bare_type(content_type->0));
    }
    let chosen = chosen_extension(path, content_type, target_os);
    let name = stored_name(chosen);
    assert(name.subrange(name.len() - chosen.len(), name.len() as int) =~= chosen);
}

/// A download is taken exactly where it succeeded and is known not to pass four gigabytes.
pub proof fn a_download_is_taken_where_it_fits(url: Seq<char>, status: u16, length: Option<u64>)
    ensures
        download_refusal(url, status, length) is None <==> status / 100 == 2 && (length is None
            || length->0 <= 4 * 1024 * 1024 * 1024),
{
}

/// A size in gigabytes is shown to the nearest tenth.
pub proof fn gigabytes_are_shown_to_the_nearest_tenth(bytes: nat)
    ensures
        -1_073_741_824 <= 2 * (tenths_of_gigabytes(bytes) * 1_073_741_824 - bytes * 10)
            <= 1_073_741_824,
{
}

/// The sample check can be made exactly where there is a recording it can be cut from.
pub proof fn a_check_needs_something_to_cut(c: Conversion)
    ensures
        blocked_reason(c) is None <==> c is NotNeeded || c is Made,
        c is Failed ==> has(blocked_reason(c)->0, c->error@),
{
    if c is Failed {
        stands_inside(
            "Could not build a WAV for the sample check ("@,
            c->error@,
            "). The whole file will be transcribed in one pass instead."@,
        );
    }
}

/// A source is remote exactly where it begins with one of the two schemes.
pub proof fn a_remote_source_has_a_scheme(rest: Seq<char>)
    ensures
        has_remote_scheme("http://"@ + rest),
        has_remote_scheme("https://"@ + rest),
{
    assert(("http://"@ + rest).take("http://"@.len() as int) =~= "http://"@);
    assert(("https://"@ + rest).take("https://"@.len() as int) =~= "https://"@);
}

} // verus!
