//! Where files live, as lists of path components, and what a file name tells.
use vstd::prelude::*;
use crate::text::{
    ascii_lower, chars_of, eq_ignore_ascii_case, join, join_texts, opt_text, part_of, same,
    split_by, split_chars_by, string_of, texts, texts_of_push,
};

verus! {

// ------------------------------------------------------------------ file names

/// Whether a path component names something: it is not empty and not the current
/// directory.
pub open spec fn is_named(part: Seq<char>) -> bool {
    part.len() > 0 && part != "."@
}

/// The last component of a path that names something.
pub open spec fn last_named(parts: Seq<Seq<char>>) -> Option<Seq<char>>
    decreases parts.len(),
{
    if parts.len() == 0 {
        None
    } else if is_named(parts.last()) {
        Some(parts.last())
    } else {
        last_named(parts.drop_last())
    }
}

/// Whether a character parts the components of a path: `/`, and on Windows `\\` too.
pub open spec fn is_separator(c: char, target_os: Seq<char>) -> bool {
    c == '/' || c == '\\' && target_os == "windows"@
}

/// Whether a character names a drive.
pub open spec fn is_drive_letter(c: char) -> bool {
    'a' <= c <= 'z' || 'A' <= c <= 'Z'
}

/// Where the component ends that starts at `from`, on Windows.
pub open spec fn component_end(path: Seq<char>, from: int) -> int
    decreases path.len() - from,
{
    if from < 0 || from >= path.len() || path[from] == '/' || path[from] == '\\' {
        from
    } else {
        component_end(path, from + 1)
    }
}

/// How much of a path on Windows names a volume: a server and a share of it behind two
/// separators, or a drive.
pub open spec fn volume_length(path: Seq<char>) -> int {
    if path.len() >= 2 && component_end(path, 0) == 0 && component_end(path, 1) == 1 {
        let server = component_end(path, 2);
        let share = component_end(path, server + 1);
        if 2 < server < path.len() && server + 1 < share {
            share
        } else {
            0
        }
    } else if path.len() >= 2 && is_drive_letter(path[0]) && path[1] == ':' {
        2
    } else {
        0
    }
}

/// A path without the volume that it may start with on Windows.
pub open spec fn without_volume(path: Seq<char>, target_os: Seq<char>) -> Seq<char> {
    if target_os == "windows"@ {
        path.skip(volume_length(path))
    } else {
        path
    }
}

/// The file name of a path: its last component, unless that is the parent directory.
pub open spec fn file_name(path: Seq<char>, target_os: Seq<char>) -> Option<Seq<char>> {
    match last_named(
        split_by(without_volume(path, target_os), |c: char| is_separator(c, target_os)),
    ) {
        Some(name) => if name == ".."@ {
            None
        } else {
            Some(name)
        },
        None => None,
    }
}

/// Where the last dot of a file name stands, beyond its first character.
pub open spec fn last_dot(name: Seq<char>) -> Option<int>
    decreases name.len(),
{
    if name.len() < 2 {
        None
    } else if name.last() == '.' {
        Some(name.len() - 1)
    } else {
        last_dot(name.drop_last())
    }
}

/// What follows the last dot of a file name. A dot at the very start does not count.
pub open spec fn name_extension(name: Seq<char>) -> Option<Seq<char>> {
    match last_dot(name) {
        Some(at) => Some(name.skip(at + 1)),
        None => None,
    }
}

/// What stands before the last dot of a file name, or all of it where there is none.
pub open spec fn name_stem(name: Seq<char>) -> Seq<char> {
    match last_dot(name) {
        Some(at) => name.take(at),
        None => name,
    }
}

/// The extension of a path.
pub open spec fn path_extension(path: Seq<char>, target_os: Seq<char>) -> Option<Seq<char>> {
    match file_name(path, target_os) {
        Some(name) => name_extension(name),
        None => None,
    }
}

fn find_component_end(v: &Vec<char>, from: usize) -> (r: usize)
    requires
        from <= v.len(),
    ensures
        r == component_end(v@, from as int),
        from <= r <= v.len(),
{
    let mut i: usize = from;
    while i < v.len() && v[i] != '/' && v[i] != '\\'
        invariant
            from <= i <= v.len(),
            component_end(v@, from as int) == component_end(v@, i as int),
        decreases v.len() - i,
    {
        i = i + 1;
    }
    i
}

fn find_volume_length(v: &Vec<char>) -> (r: usize)
    ensures
        r == volume_length(v@),
        r <= v.len(),
{
    if v.len() < 2 {
        return 0;
    }
    if find_component_end(v, 0) == 0 && find_component_end(v, 1) == 1 {
        let server = find_component_end(v, 2);
        if server == 2 || server == v.len() {
            return 0;
        }
        let share = find_component_end(v, server + 1);
        if share == server + 1 {
            return 0;
        }
        share
    } else if (('a' <= v[0] && v[0] <= 'z') || ('A' <= v[0] && v[0] <= 'Z')) && v[1] == ':' {
        2
    } else {
        0
    }
}

/// `Path::file_name`, of a path to a file.
pub fn file_name_of(path: &str, target_os: &str) -> (r: Option<String>)
    ensures
        opt_text(r) == file_name(path@, target_os@),
{
    let windows = same(target_os, "windows");
    let v = chars_of(path);
    let start: usize = if windows {
        find_volume_length(&v)
    } else {
        0
    };
    let rest = part_of(&v, start, v.len());
    assert(rest@ =~= without_volume(path@, target_os@));
    let parts_here = move |c: char| -> (b: bool)
        ensures
            b == (c == '/' || c == '\\' && windows),
        { c == '/' || c == '\\' && windows };
    let parts = split_chars_by(
        &rest,
        parts_here,
        Ghost(|c: char| is_separator(c, target_os@)),
    );
    let ghost all = texts(parts@);
    let mut i: usize = parts.len();
    assert(all.take(i as int) == all);
    while i > 0
        invariant
            i <= parts.len(),
            all == texts(parts@),
            all == split_by(
                without_volume(path@, target_os@),
                |c: char| is_separator(c, target_os@),
            ),
            last_named(all) == last_named(all.take(i as int)),
        decreases i,
    {
        let part = &parts[i - 1];
        assert(all.take(i as int).last() == part@);
        assert(all.take(i as int).drop_last() == all.take(i - 1));
        if !part.as_str().is_empty() && !same(part.as_str(), ".") {
            if same(part.as_str(), "..") {
                return None;
            }
            return Some(part.clone());
        }
        i = i - 1;
    }
    None
}

fn find_last_dot(name: &Vec<char>) -> (r: Option<usize>)
    ensures
        match r {
            Some(at) => last_dot(name@) == Some(at as int) && at < name.len(),
            None => last_dot(name@) is None,
        },
{
    let mut i: usize = name.len();
    assert(name@.take(i as int) == name@);
    while i >= 2
        invariant
            i <= name.len(),
            last_dot(name@) == last_dot(name@.take(i as int)),
        decreases i,
    {
        if name[i - 1] == '.' {
            return Some(i - 1);
        }
        assert(name@.take(i as int).drop_last() == name@.take(i - 1));
        i = i - 1;
    }
    None
}

/// The extension of a file name.
pub fn extension_of_name(name: &str) -> (r: Option<String>)
    ensures
        opt_text(r) == name_extension(name@),
{
    let v = chars_of(name);
    match find_last_dot(&v) {
        Some(at) => {
            let rest = part_of(&v, at + 1, v.len());
            assert(rest@ == name@.skip(at + 1));
            Some(string_of(&rest))
        },
        None => None,
    }
}

/// The stem of a file name.
pub fn stem_of_name(name: &str) -> (r: String)
    ensures
        r@ == name_stem(name@),
{
    let v = chars_of(name);
    match find_last_dot(&v) {
        Some(at) => {
            let rest = part_of(&v, 0, at);
            assert(rest@ == name@.take(at as int));
            string_of(&rest)
        },
        None => name.to_owned(),
    }
}

/// Whether a file name has the extension of a WAV file.
pub open spec fn is_wav_name(name: Seq<char>) -> bool {
    match name_extension(name) {
        Some(e) => ascii_lower(e) == "wav"@,
        None => false,
    }
}

pub fn ends_in_wav(name: &str) -> (r: bool)
    ensures
        r == is_wav_name(name@),
{
    proof {
        reveal_strlit("wav");
        assert(ascii_lower("wav"@) =~= "wav"@);
    }
    match extension_of_name(name) {
        Some(e) => eq_ignore_ascii_case(e.as_str(), "wav"),
        None => false,
    }
}

// ------------------------------------------------------------------- locations

/// A place below the home directory: the names to descend through, outermost first.
#[derive(Debug, Clone, PartialEq, Eq)]
pub struct HomePath {
    pub parts: Vec<String>,
}

impl View for HomePath {
    type V = Seq<Seq<char>>;

    open spec fn view(&self) -> Seq<Seq<char>> {
        texts(self.parts@)
    }
}

impl HomePath {
    /// The directory `name` below the home directory.
    pub fn at(name: &str) -> (r: HomePath)
        ensures
            r@ == seq![name@],
    {
        let mut parts: Vec<String> = Vec::new();
        parts.push(name.to_owned());
        assert(texts(parts@) =~= seq![name@]);
        HomePath { parts }
    }

    /// `name` in this directory.
    pub fn join(self, name: &str) -> (r: HomePath)
        ensures
            r@ == self@.push(name@),
    {
        broadcast use texts_of_push;

        let mut parts = self.parts;
        parts.push(name.to_owned());
        HomePath { parts }
    }

    /// The path below the home directory, written with `/`.
    pub fn to_text(&self) -> (r: String)
        ensures
            r@ == join(self@, "/"@),
    {
        join_texts(&self.parts, "/")
    }
}

pub open spec fn wisper_place(name: Seq<char>) -> Seq<Seq<char>> {
    seq![".wisper-cli"@, name]
}

pub open spec fn meeting_place(id: Seq<char>) -> Seq<Seq<char>> {
    seq![".nextbase"@, "meetings"@, id]
}

pub fn wisper_dir() -> (r: HomePath)
    ensures
        r@ == seq![".wisper-cli"@],
{
    HomePath::at(".wisper-cli")
}

pub fn config_file() -> (r: HomePath)
    ensures
        r@ == wisper_place("config.json"@),
{
    wisper_dir().join("config.json")
}

pub fn history_file() -> (r: HomePath)
    ensures
        r@ == wisper_place("history.json"@),
{
    wisper_dir().join("history.json")
}

pub fn log_file() -> (r: HomePath)
    ensures
        r@ == wisper_place("wisper.log"@),
{
    wisper_dir().join("wisper.log")
}

pub fn pid_file() -> (r: HomePath)
    ensures
        r@ == wisper_place("listener.pid"@),
{
    wisper_dir().join("listener.pid")
}

pub fn tmp_dir() -> (r: HomePath)
    ensures
        r@ == wisper_place("tmp"@),
{
    wisper_dir().join("tmp")
}

pub fn installed_sha_file() -> (r: HomePath)
    ensures
        r@ == wisper_place("installed-sha"@),
{
    wisper_dir().join("installed-sha")
}

/// Meeting state and deliverables.
///
/// Separate from `~/.wisper-cli` because these are files a person opens: notes,
/// transcripts, recordings. Config and keys stay shared in `~/.wisper-cli/config.json`.
pub fn nextbase_dir() -> (r: HomePath)
    ensures
        r@ == seq![".nextbase"@],
{
    HomePath::at(".nextbase")
}

pub fn meetings_dir() -> (r: HomePath)
    ensures
        r@ == seq![".nextbase"@, "meetings"@],
{
    nextbase_dir().join("meetings")
}

pub fn meeting_dir(id: &str) -> (r: HomePath)
    ensures
        r@ == meeting_place(id@),
{
    meetings_dir().join(id)
}

pub fn active_meeting_file() -> (r: HomePath)
    ensures
        r@ == seq![".nextbase"@, "active-meeting.json"@],
{
    nextbase_dir().join("active-meeting.json")
}

pub fn meeting_log_file() -> (r: HomePath)
    ensures
        r@ == seq![".nextbase"@, "meeting.log"@],
{
    nextbase_dir().join("meeting.log")
}

/// Two meetings with different ids have different directories.
pub proof fn meetings_do_not_share_a_directory(a: Seq<char>, b: Seq<char>)
    requires
        a != b,
    ensures
        meeting_place(a) != meeting_place(b),
{
    assert(meeting_place(a)[2] != meeting_place(b)[2]);
}

/// A name is its stem, a dot and its extension, which holds no other dot. A name without an
/// extension has no dot but perhaps in front.
pub proof fn a_name_is_its_stem_and_extension(name: Seq<char>)
    ensures
        match name_extension(name) {
            Some(e) => {
                &&& name == name_stem(name) + seq!['.'] + e
                &&& name_stem(name).len() > 0
                &&& forall|k: int| 0 <= k < e.len() ==> #[trigger] e[k] != '.'
            },
            None => {
                &&& name_stem(name) == name
                &&& forall|k: int| 1 <= k < name.len() ==> #[trigger] name[k] != '.'
            },
        },
{
    the_last_dot_is_found(name);
    if last_dot(name) is Some {
        let at = last_dot(name)->0;
        assert(name =~= name.take(at) + seq!['.'] + name.skip(at + 1));
        assert forall|k: int| 0 <= k < name.skip(at + 1).len() implies #[trigger] name.skip(
            at + 1,
        )[k] != '.' by {
            assert(name.skip(at + 1)[k] == name[at + 1 + k]);
        }
    }
}

proof fn the_last_dot_is_found(name: Seq<char>)
    ensures
        match last_dot(name) {
            Some(at) => 1 <= at < name.len() && name[at] == '.' && forall|k: int|
                at < k < name.len() ==> #[trigger] name[k] != '.',
            None => forall|k: int| 1 <= k < name.len() ==> #[trigger] name[k] != '.',
        },
    decreases name.len(),
{
    if name.len() >= 2 && name.last() != '.' {
        let front = name.drop_last();
        the_last_dot_is_found(front);
        assert forall|k: int| 0 <= k < front.len() implies #[trigger] name[k] == front[k] by {}
    }
}

/// The name of a file is what follows the last separator of its path.
pub proof fn a_file_is_named_behind_the_last_separator(directory: Seq<char>, name: Seq<char>)
    requires
        name.len() > 0,
        name != "."@,
        name != ".."@,
        forall|i: int| 0 <= i < name.len() ==> #[trigger] name[i] != '/',
    ensures
        file_name(directory + seq!['/'] + name, "linux"@) == Some(name),
        file_name(directory + seq!['/'] + name, "macos"@) == Some(name),
        path_extension(directory + seq!['/'] + name, "linux"@) == name_extension(name),
{
    let path = directory + seq!['/'] + name;
    reveal_strlit("linux");
    reveal_strlit("macos");
    reveal_strlit("windows");
    assert("linux"@.len() == 5 && "macos"@.len() == 5 && "windows"@.len() == 7);
    let p = |c: char| is_separator(c, "linux"@);
    let q = |c: char| is_separator(c, "macos"@);
    assert forall|i: int| 0 <= i < name.len() implies !p(#[trigger] name[i]) && !q(name[i]) by {}
    the_last_piece_is_whole(directory, '/', name, p);
    the_last_piece_is_whole(directory, '/', name, q);
}

proof fn the_last_piece_is_whole(
    before: Seq<char>,
    separator: char,
    piece: Seq<char>,
    p: spec_fn(char) -> bool,
)
    requires
        p(separator),
        forall|i: int| 0 <= i < piece.len() ==> !p(#[trigger] piece[i]),
    ensures
        split_by(before + seq![separator] + piece, p).len() > 0,
        split_by(before + seq![separator] + piece, p).last() == piece,
    decreases piece.len(),
{
    let s = before + seq![separator] + piece;
    if piece.len() == 0 {
        assert(s.drop_last() =~= before);
        assert(s.last() == separator);
        assert(piece =~= Seq::<char>::empty());
    } else {
        let front = piece.drop_last();
        assert forall|i: int| 0 <= i < front.len() implies !p(#[trigger] front[i]) by {
            assert(front[i] == piece[i]);
        }
        the_last_piece_is_whole(before, separator, front, p);
        assert(s.drop_last() =~= before + seq![separator] + front);
        assert(s.last() == piece[piece.len() - 1]);
        assert(front.push(piece.last()) =~= piece);
    }
}

/// On Windows too the name of a file is what follows the last separator, of either kind.
pub proof fn a_file_on_a_drive_is_named_behind_the_last_separator(
    drive: char,
    directory: Seq<char>,
    separator: char,
    name: Seq<char>,
)
    requires
        'A' <= drive <= 'Z',
        separator == '/' || separator == '\\',
        name.len() > 0,
        name != "."@,
        name != ".."@,
        forall|i: int| 0 <= i < name.len() ==> #[trigger] name[i] != '/' && name[i] != '\\',
    ensures
        file_name(seq![drive, ':'] + directory + seq![separator] + name, "windows"@) == Some(name),
{
    let path = seq![drive, ':'] + directory + seq![separator] + name;
    let rest = directory + seq![separator] + name;
    reveal_with_fuel(component_end, 2);
    assert(path[0] == drive && path[1] == ':');
    ends_further_on(path, 1);
    assert(component_end(path, 0) != 0);
    assert(volume_length(path) == 2);
    assert(path.skip(2) =~= rest);
    let p = |c: char| is_separator(c, "windows"@);
    assert forall|i: int| 0 <= i < name.len() implies !p(#[trigger] name[i]) by {}
    the_last_piece_is_whole(directory, separator, name, p);
}

proof fn ends_further_on(path: Seq<char>, from: int)
    requires
        0 <= from <= path.len(),
    ensures
        component_end(path, from) >= from,
    decreases path.len() - from,
{
    if from < path.len() && path[from] != '/' && path[from] != '\\' {
        ends_further_on(path, from + 1);
    }
}

} // verus!
