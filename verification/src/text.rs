//! Text as a sequence of characters: the string operations the rest of the library is
//! specified with, and executable versions of them.
use vstd::prelude::*;
use vstd::utf8::is_ascii_chars;

verus! {

// ------------------------------------------------------------------ trusted

/// `String::push`: appends one character.
pub assume_specification[ String::push ](s: &mut String, c: char)
    ensures
        final(s)@ == old(s)@.push(c),
;

/// What `char::to_uppercase` yields for a character.
pub uninterp spec fn unicode_upper(c: char) -> Seq<char>;

/// What `str::to_lowercase` returns.
pub uninterp spec fn unicode_lower(s: Seq<char>) -> Seq<char>;

/// `char::to_uppercase`. What it yields depends on the character alone; for ASCII it is the
/// capital of a small letter, and any other character as it is.
#[verifier::external_body]
fn upper_chars(c: char) -> (r: Vec<char>)
    ensures
        r@ == unicode_upper(c),
        '\0' <= c <= '\u{7f}' ==> r@ == seq![upper_char(c)],
{
    c.to_uppercase().collect()
}

/// `str::to_lowercase`. The result depends on the characters alone; on ASCII text it is
/// the letter by letter mapping.
#[verifier::external_body]
pub(crate) fn to_lowercase(s: &str) -> (r: String)
    ensures
        r@ == unicode_lower(s@),
        is_ascii_chars(s@) ==> r@ == ascii_lower(s@),
{
    s.to_lowercase()
}

// -------------------------------------------------------------------- letter case

/// What a character is in upper case: one character where it is ASCII, and what the Unicode
/// tables say otherwise.
pub open spec fn upper_of(c: char) -> Seq<char> {
    if '\0' <= c <= '\u{7f}' {
        seq![upper_char(c)]
    } else {
        unicode_upper(c)
    }
}

/// `s` in upper case, character by character.
pub open spec fn uppercase_of(s: Seq<char>) -> Seq<char>
    decreases s.len(),
{
    if s.len() == 0 {
        s
    } else {
        uppercase_of(s.drop_last()) + upper_of(s.last())
    }
}

/// `str::to_uppercase`: no character's upper case depends on those around it.
pub(crate) fn to_uppercase(s: &str) -> (r: String)
    ensures
        r@ == uppercase_of(s@),
{
    let v = chars_of(s);
    let mut r: Vec<char> = Vec::new();
    let mut i: usize = 0;
    assert(r@ =~= uppercase_of(s@.take(0)));
    while i < v.len()
        invariant
            i <= v.len(),
            v@ == s@,
            r@ == uppercase_of(s@.take(i as int)),
        decreases v.len() - i,
    {
        let mut upper = upper_chars(v[i]);
        assert(s@.take(i + 1).drop_last() == s@.take(i as int));
        r.append(&mut upper);
        i = i + 1;
    }
    assert(s@.take(i as int) == s@);
    string_of(&r)
}

/// Texts whose characters are the same in upper case, one by one, are the same in upper case.
pub proof fn upper_case_is_all_that_counts(a: Seq<char>, b: Seq<char>)
    requires
        a.len() == b.len(),
        forall|i: int| 0 <= i < a.len() ==> upper_of(#[trigger] a[i]) == upper_of(b[i]),
    ensures
        uppercase_of(a) == uppercase_of(b),
    decreases a.len(),
{
    if a.len() > 0 {
        let x = a.drop_last();
        let y = b.drop_last();
        assert forall|i: int| 0 <= i < x.len() implies upper_of(#[trigger] x[i]) == upper_of(
            y[i],
        ) by {
            assert(x[i] == a[i]);
        }
        upper_case_is_all_that_counts(x, y);
        assert(upper_of(a[a.len() - 1]) == upper_of(b[b.len() - 1]));
    } else {
        assert(a =~= b);
    }
}

/// A text of characters that are in upper case already stays as it is.
pub proof fn capitals_stay(s: Seq<char>)
    requires
        forall|i: int| 0 <= i < s.len() ==> upper_of(#[trigger] s[i]) == seq![s[i]],
    ensures
        uppercase_of(s) == s,
    decreases s.len(),
{
    if s.len() > 0 {
        let before = s.drop_last();
        assert forall|i: int| 0 <= i < before.len() implies upper_of(#[trigger] before[i])
            == seq![before[i]] by {
            assert(before[i] == s[i]);
        }
        capitals_stay(before);
        assert(upper_of(s[s.len() - 1]) == seq![s.last()]);
        assert(uppercase_of(s) =~= s);
    }
}

/// What holds of all that the characters become in upper case holds of the text in upper case.
pub proof fn upper_case_is_made_of_capitals(s: Seq<char>, q: spec_fn(char) -> bool)
    requires
        forall|i: int, j: int|
            0 <= i < s.len() && 0 <= j < upper_of(s[i]).len() ==> q(#[trigger] upper_of(s[i])[j]),
    ensures
        forall|k: int| 0 <= k < uppercase_of(s).len() ==> q(#[trigger] uppercase_of(s)[k]),
    decreases s.len(),
{
    if s.len() > 0 {
        let before = s.drop_last();
        assert forall|i: int, j: int|
            0 <= i < before.len() && 0 <= j < upper_of(before[i]).len() implies q(
            #[trigger] upper_of(before[i])[j],
        ) by {
            assert(upper_of(before[i])[j] == upper_of(s[i])[j]);
        }
        upper_case_is_made_of_capitals(before, q);
        let start = uppercase_of(before);
        assert forall|k: int| 0 <= k < uppercase_of(s).len() implies q(
            #[trigger] uppercase_of(s)[k],
        ) by {
            if k < start.len() {
                assert(uppercase_of(s)[k] == start[k]);
            } else {
                assert(uppercase_of(s)[k] == upper_of(s[s.len() - 1])[k - start.len()]);
            }
        }
    }
}

/// `s` in lower case: letter by letter where it is ASCII, by the Unicode tables otherwise.
pub open spec fn lowercase_of(s: Seq<char>) -> Seq<char> {
    if is_ascii_chars(s) {
        ascii_lower(s)
    } else {
        unicode_lower(s)
    }
}

// ------------------------------------------------------------- single characters

/// The characters with the Unicode property `White_Space`.
pub open spec fn is_space(c: char) -> bool {
    ||| ('\u{9}' <= c && c <= '\u{d}')
    ||| c == ' '
    ||| c == '\u{85}'
    ||| c == '\u{a0}'
    ||| c == '\u{1680}'
    ||| ('\u{2000}' <= c && c <= '\u{200a}')
    ||| c == '\u{2028}'
    ||| c == '\u{2029}'
    ||| c == '\u{202f}'
    ||| c == '\u{205f}'
    ||| c == '\u{3000}'
}

pub fn is_whitespace(c: char) -> (r: bool)
    ensures
        r == is_space(c),
{
    ('\u{9}' <= c && c <= '\u{d}') || c == ' ' || c == '\u{85}' || c == '\u{a0}' || c
        == '\u{1680}' || ('\u{2000}' <= c && c <= '\u{200a}') || c == '\u{2028}' || c
        == '\u{2029}' || c == '\u{202f}' || c == '\u{205f}' || c == '\u{3000}'
}

pub open spec fn is_digit(c: char) -> bool {
    '0' <= c && c <= '9'
}

pub open spec fn is_upper(c: char) -> bool {
    'A' <= c && c <= 'Z'
}

pub open spec fn is_lower(c: char) -> bool {
    'a' <= c && c <= 'z'
}

pub open spec fn upper_char(c: char) -> char {
    if is_lower(c) {
        (c as u32 - 32) as char
    } else {
        c
    }
}

pub open spec fn lower_char(c: char) -> char {
    if is_upper(c) {
        (c as u32 + 32) as char
    } else {
        c
    }
}

pub open spec fn ascii_upper(s: Seq<char>) -> Seq<char> {
    s.map_values(|c: char| upper_char(c))
}

pub open spec fn ascii_lower(s: Seq<char>) -> Seq<char> {
    s.map_values(|c: char| lower_char(c))
}

/// `str::to_ascii_lowercase`.
pub fn to_ascii_lowercase(s: &str) -> (r: String)
    ensures
        r@ == ascii_lower(s@),
{
    let v = chars_of(s);
    let mut r: Vec<char> = Vec::new();
    let mut i: usize = 0;
    while i < v.len()
        invariant
            i <= v.len(),
            v@ == s@,
            r.len() == i,
            forall|j: int| 0 <= j < i ==> #[trigger] r@[j] == lower_char(s@[j]),
        decreases v.len() - i,
    {
        r.push(to_lower_char(v[i]));
        i = i + 1;
    }
    assert(r@ =~= ascii_lower(s@));
    string_of(&r)
}

/// `char::to_ascii_lowercase`.
pub fn to_lower_char(c: char) -> (r: char)
    ensures
        r == lower_char(c),
{
    if 'A' <= c && c <= 'Z' {
        (c as u8 + 32) as char
    } else {
        c
    }
}

/// `char::to_ascii_uppercase`.
pub fn to_upper_char(c: char) -> (r: char)
    ensures
        r == upper_char(c),
{
    if 'a' <= c && c <= 'z' {
        (c as u8 - 32) as char
    } else {
        c
    }
}

// ---------------------------------------------------------- strings and characters

/// The texts of a list of strings.
pub open spec fn texts(v: Seq<String>) -> Seq<Seq<char>> {
    Seq::new(v.len(), |i: int| v[i]@)
}

/// The text of an optional string.
pub open spec fn opt_text(o: Option<String>) -> Option<Seq<char>> {
    match o {
        Some(s) => Some(s@),
        None => None,
    }
}

/// A copy of an optional string.
pub fn copy_opt(o: &Option<String>) -> (r: Option<String>)
    ensures
        opt_text(r) == opt_text(*o),
{
    match o {
        Some(s) => Some(s.clone()),
        None => None,
    }
}

/// A copy of a list of strings.
pub fn copy_list(list: &Vec<String>) -> (r: Vec<String>)
    ensures
        texts(r@) == texts(list@),
{
    let mut r: Vec<String> = Vec::new();
    let mut i: usize = 0;
    while i < list.len()
        invariant
            i <= list.len(),
            r.len() == i,
            forall|j: int| 0 <= j < i ==> (#[trigger] r@[j])@ == list@[j]@,
        decreases list.len() - i,
    {
        r.push(list[i].clone());
        i = i + 1;
    }
    assert(texts(r@) =~= texts(list@));
    r
}

/// Adding a string to a list adds its text to the texts.
pub broadcast proof fn texts_of_push(list: Seq<String>, s: String)
    ensures
        #[trigger] texts(list.push(s)) == texts(list).push(s@),
{
    assert(texts(list.push(s)) =~= texts(list).push(s@));
}

pub fn chars_of(s: &str) -> (v: Vec<char>)
    ensures
        v@ == s@,
{
    let mut v: Vec<char> = Vec::new();
    for c in it: s.chars()
        invariant
            v@ == s@.take(it.index()),
            it.seq() == s@,
            0 <= it.index() <= s@.len(),
    {
        v.push(c);
    }
    v
}

pub fn string_of(v: &[char]) -> (s: String)
    ensures
        s@ == v@,
{
    let mut s = String::new();
    let mut i: usize = 0;
    while i < v.len()
        invariant
            i <= v.len(),
            s@ == v@.take(i as int),
        decreases v.len() - i,
    {
        s.push(v[i]);
        i = i + 1;
    }
    s
}

/// Whether two strings hold the same characters.
pub fn same(a: &str, b: &str) -> (r: bool)
    ensures
        r == (a@ == b@),
{
    a.to_owned() == b.to_owned()
}

// ------------------------------------------------------------------ trimming

/// `s` without the characters at its start that satisfy `p`.
pub open spec fn trim_front(s: Seq<char>, p: spec_fn(char) -> bool) -> Seq<char>
    decreases s.len(),
{
    if s.len() > 0 && p(s[0]) {
        trim_front(s.drop_first(), p)
    } else {
        s
    }
}

/// `s` without the characters at its end that satisfy `p`.
pub open spec fn trim_back(s: Seq<char>, p: spec_fn(char) -> bool) -> Seq<char>
    decreases s.len(),
{
    if s.len() > 0 && p(s.last()) {
        trim_back(s.drop_last(), p)
    } else {
        s
    }
}

/// `s` without the characters at both ends that satisfy `p`.
pub open spec fn trim_both(s: Seq<char>, p: spec_fn(char) -> bool) -> Seq<char> {
    trim_back(trim_front(s, p), p)
}

/// `s` without white space at its ends.
pub open spec fn trimmed(s: Seq<char>) -> Seq<char> {
    trim_both(s, |c: char| is_space(c))
}

proof fn trim_front_forgets(pad: Seq<char>, s: Seq<char>, p: spec_fn(char) -> bool)
    requires
        forall|i: int| 0 <= i < pad.len() ==> p(#[trigger] pad[i]),
    ensures
        trim_front(pad + s, p) == trim_front(s, p),
    decreases pad.len(),
{
    if pad.len() == 0 {
        assert(pad + s == s);
    } else {
        assert((pad + s).drop_first() == pad.drop_first() + s);
        trim_front_forgets(pad.drop_first(), s, p);
    }
}

proof fn trim_back_forgets(s: Seq<char>, pad: Seq<char>, p: spec_fn(char) -> bool)
    requires
        forall|i: int| 0 <= i < pad.len() ==> p(#[trigger] pad[i]),
    ensures
        trim_back(s + pad, p) == trim_back(s, p),
    decreases pad.len(),
{
    if pad.len() == 0 {
        assert(s + pad == s);
    } else {
        assert((s + pad).drop_last() == s + pad.drop_last());
        trim_back_forgets(s, pad.drop_last(), p);
    }
}

proof fn trim_front_of_padded(s: Seq<char>, pad: Seq<char>, p: spec_fn(char) -> bool)
    requires
        forall|i: int| 0 <= i < pad.len() ==> p(#[trigger] pad[i]),
    ensures
        trim_front(s, p).len() > 0 ==> trim_front(s + pad, p) == trim_front(s, p) + pad,
        trim_front(s, p).len() == 0 ==> trim_front(s + pad, p).len() == 0,
    decreases s.len(),
{
    if s.len() == 0 {
        trim_front_forgets(pad, Seq::<char>::empty(), p);
        assert(s + pad == pad + Seq::<char>::empty());
    } else if p(s[0]) {
        assert((s + pad).drop_first() == s.drop_first() + pad);
        trim_front_of_padded(s.drop_first(), pad, p);
    }
}

/// Trimming forgets white space put around a text.
pub proof fn trimming_forgets_padding(before: Seq<char>, s: Seq<char>, after: Seq<char>)
    requires
        forall|i: int| 0 <= i < before.len() ==> is_space(#[trigger] before[i]),
        forall|i: int| 0 <= i < after.len() ==> is_space(#[trigger] after[i]),
    ensures
        trimmed(before + s + after) == trimmed(s),
{
    let p = |c: char| is_space(c);
    assert(before + s + after == before + (s + after));
    trim_front_forgets(before, s + after, p);
    trim_front_of_padded(s, after, p);
    if trim_front(s, p).len() > 0 {
        trim_back_forgets(trim_front(s, p), after, p);
    } else {
        assert(trim_front(s + after, p) =~= trim_front(s, p));
    }
}

proof fn trim_front_of_changed(
    s: Seq<char>,
    f: spec_fn(char) -> char,
    p: spec_fn(char) -> bool,
)
    requires
        forall|c: char| #[trigger] p(f(c)) == p(c),
    ensures
        trim_front(s.map_values(f), p) == trim_front(s, p).map_values(f),
    decreases s.len(),
{
    if s.len() > 0 {
        assert(s.map_values(f)[0] == f(s[0]));
        assert(p(f(s[0])) == p(s[0]));
        assert(s.map_values(f).drop_first() =~= s.drop_first().map_values(f));
        trim_front_of_changed(s.drop_first(), f, p);
    }
}

proof fn trim_back_of_changed(
    s: Seq<char>,
    f: spec_fn(char) -> char,
    p: spec_fn(char) -> bool,
)
    requires
        forall|c: char| #[trigger] p(f(c)) == p(c),
    ensures
        trim_back(s.map_values(f), p) == trim_back(s, p).map_values(f),
    decreases s.len(),
{
    if s.len() > 0 {
        assert(s.map_values(f).last() == f(s.last()));
        assert(p(f(s.last())) == p(s.last()));
        assert(s.map_values(f).drop_last() =~= s.drop_last().map_values(f));
        trim_back_of_changed(s.drop_last(), f, p);
    }
}

/// Letter case does not change what is trimmed off a text.
pub proof fn trimming_keeps_case_apart(s: Seq<char>)
    ensures
        trimmed(ascii_lower(s)) == ascii_lower(trimmed(s)),
        trimmed(ascii_upper(s)) == ascii_upper(trimmed(s)),
{
    let p = |c: char| is_space(c);
    let low = |c: char| lower_char(c);
    let up = |c: char| upper_char(c);
    trim_front_of_changed(s, low, p);
    trim_back_of_changed(trim_front(s, p), low, p);
    trim_front_of_changed(s, up, p);
    trim_back_of_changed(trim_front(s, p), up, p);
}

/// What trimming leaves is a part of the text.
pub proof fn trimmed_is_a_part(s: Seq<char>)
    ensures
        exists|i: int, j: int| 0 <= i <= j <= s.len() && trimmed(s) == #[trigger] s.subrange(i, j),
{
    let p = |c: char| is_space(c);
    trim_front_is_skip(s, p);
    let front = trim_front(s, p);
    trim_back_is_take(front, p);
    let i = s.len() - front.len();
    let j = i + trimmed(s).len();
    assert(front.take(trimmed(s).len() as int) =~= s.subrange(i, j));
}

/// Trimming at the end leaves a beginning, whose last character stays.
pub proof fn trim_back_is_take(s: Seq<char>, p: spec_fn(char) -> bool)
    ensures
        trim_back(s, p).len() <= s.len(),
        trim_back(s, p) == s.take(trim_back(s, p).len() as int),
        trim_back(s, p).len() > 0 ==> !p(trim_back(s, p).last()),
    decreases s.len(),
{
    if s.len() > 0 && p(s.last()) {
        trim_back_is_take(s.drop_last(), p);
        let n = trim_back(s, p).len() as int;
        assert(s.drop_last().take(n) == s.take(n));
    } else {
        assert(s.take(s.len() as int) == s);
    }
}

/// Trimming at the start leaves an end, whose first character stays.
pub proof fn trim_front_is_skip(s: Seq<char>, p: spec_fn(char) -> bool)
    ensures
        trim_front(s, p).len() <= s.len(),
        trim_front(s, p) == s.skip(s.len() - trim_front(s, p).len()),
        trim_front(s, p).len() > 0 ==> !p(trim_front(s, p)[0]),
    decreases s.len(),
{
    if s.len() > 0 && p(s[0]) {
        trim_front_is_skip(s.drop_first(), p);
        let n = s.len() - trim_front(s, p).len();
        assert(s.drop_first().skip(n - 1) == s.skip(n));
    } else {
        assert(s.skip(0) == s);
    }
}

pub(crate) fn trim_front_by<F: Fn(char) -> bool>(
    v: &[char],
    f: F,
    p: Ghost<spec_fn(char) -> bool>,
) -> (start: usize)
    requires
        forall|c: char| call_requires(f, (c,)),
        forall|c: char, b: bool| call_ensures(f, (c,), b) ==> b == p@(c),
    ensures
        start <= v.len(),
        trim_front(v@, p@) == v@.skip(start as int),
        start < v.len() ==> !p@(v@[start as int]),
{
    let mut i: usize = 0;
    assert(v@.skip(0) == v@);
    while i < v.len() && f(v[i])
        invariant
            i <= v.len(),
            forall|c: char| call_requires(f, (c,)),
            forall|c: char, b: bool| call_ensures(f, (c,), b) ==> b == p@(c),
            trim_front(v@, p@) == trim_front(v@.skip(i as int), p@),
        decreases v.len() - i,
    {
        assert(v@.skip(i as int).drop_first() == v@.skip(i + 1));
        i = i + 1;
    }
    i
}

pub(crate) fn trim_back_by<F: Fn(char) -> bool>(
    v: &[char],
    f: F,
    p: Ghost<spec_fn(char) -> bool>,
) -> (end: usize)
    requires
        forall|c: char| call_requires(f, (c,)),
        forall|c: char, b: bool| call_ensures(f, (c,), b) ==> b == p@(c),
    ensures
        end <= v.len(),
        trim_back(v@, p@) == v@.take(end as int),
        end > 0 ==> !p@(v@[end - 1]),
{
    let mut i: usize = v.len();
    assert(v@.take(i as int) == v@);
    while i > 0 && f(v[i - 1])
        invariant
            i <= v.len(),
            forall|c: char| call_requires(f, (c,)),
            forall|c: char, b: bool| call_ensures(f, (c,), b) ==> b == p@(c),
            trim_back(v@, p@) == trim_back(v@.take(i as int), p@),
        decreases i,
    {
        assert(v@.take(i as int).drop_last() == v@.take(i - 1));
        i = i - 1;
    }
    i
}

/// The part of `v` from `from` up to `to`.
pub(crate) fn part_of(v: &[char], from: usize, to: usize) -> (r: Vec<char>)
    requires
        from <= to <= v.len(),
    ensures
        r@ == v@.subrange(from as int, to as int),
{
    let mut r: Vec<char> = Vec::new();
    let mut i: usize = from;
    while i < to
        invariant
            from <= i <= to <= v.len(),
            r@ == v@.subrange(from as int, i as int),
        decreases to - i,
    {
        r.push(v[i]);
        i = i + 1;
    }
    r
}

pub(crate) fn trim_both_by<F: Fn(char) -> bool>(
    v: &[char],
    f: F,
    p: Ghost<spec_fn(char) -> bool>,
) -> (r: Vec<char>)
    requires
        forall|c: char| call_requires(f, (c,)),
        forall|c: char, b: bool| call_ensures(f, (c,), b) ==> b == p@(c),
    ensures
        r@ == trim_both(v@, p@),
{
    let start = trim_front_by(v, &f, p);
    let front = part_of(v, start, v.len());
    assert(front@ == v@.skip(start as int));
    let end = trim_back_by(&front, &f, p);
    let r = part_of(&front, 0, end);
    assert(r@ == front@.take(end as int));
    r
}

/// `str::trim`.
pub fn trim(s: &str) -> (r: String)
    ensures
        r@ == trimmed(s@),
{
    let v = chars_of(s);
    let r = trim_both_by(&v, is_whitespace, Ghost(|c: char| is_space(c)));
    string_of(&r)
}

// -------------------------------------------------------------- prefixes and search

/// `s` without `prefix` at its start, or `s` itself where it does not start so.
pub open spec fn without_prefix(s: Seq<char>, prefix: Seq<char>) -> Seq<char> {
    if prefix.is_prefix_of(s) {
        s.skip(prefix.len() as int)
    } else {
        s
    }
}

/// `s` without `suffix` at its end, or `s` itself where it does not end so.
pub open spec fn without_suffix(s: Seq<char>, suffix: Seq<char>) -> Seq<char> {
    if suffix.is_suffix_of(s) {
        s.take(s.len() - suffix.len())
    } else {
        s
    }
}

/// Whether `part` stands in `s` at position `i`.
pub open spec fn stands_at(s: Seq<char>, part: Seq<char>, i: int) -> bool {
    0 <= i && i + part.len() <= s.len() && s.subrange(i, i + part.len()) == part
}

/// Whether `part` stands anywhere in `s`.
pub open spec fn has(s: Seq<char>, part: Seq<char>) -> bool {
    exists|i: int| stands_at(s, part, i)
}

/// Whether `part` stands nowhere in `s`.
pub open spec fn lacks(s: Seq<char>, part: Seq<char>) -> bool {
    forall|i: int| !stands_at(s, part, i)
}

/// Whether any character of `s` satisfies `is_space`.
pub open spec fn has_space(s: Seq<char>) -> bool {
    exists|i: int| 0 <= i < s.len() && is_space(#[trigger] s[i])
}

pub(crate) fn stands_here(v: &[char], part: &[char], at: usize) -> (r: bool)
    requires
        at <= v.len(),
    ensures
        r == stands_at(v@, part@, at as int),
{
    if part.len() > v.len() - at {
        return false;
    }
    let mut i: usize = 0;
    while i < part.len()
        invariant
            i <= part.len(),
            at + part.len() <= v.len(),
            forall|j: int| 0 <= j < i ==> v@[at + j] == part@[j],
        decreases part.len() - i,
    {
        if v[at + i] != part[i] {
            assert(v@.subrange(at as int, at + part@.len())[i as int] != part@[i as int]);
            return false;
        }
        i = i + 1;
    }
    assert(v@.subrange(at as int, at + part@.len()) =~= part@);
    true
}

/// The first position at or after `from` at which `part` stands.
pub(crate) fn find_from(v: &[char], part: &[char], from: usize) -> (r: Option<usize>)
    requires
        from <= v.len(),
    ensures
        match r {
            Some(i) => from <= i && stands_at(v@, part@, i as int) && forall|j: int|
                from <= j < i ==> !stands_at(v@, part@, j),
            None => forall|j: int| from <= j ==> !stands_at(v@, part@, j),
        },
{
    let mut i: usize = from;
    loop
        invariant
            from <= i <= v.len(),
            forall|j: int| from <= j < i ==> !stands_at(v@, part@, j),
        decreases v.len() - i,
    {
        if stands_here(v, part, i) {
            return Some(i);
        }
        if i == v.len() {
            return None;
        }
        i = i + 1;
    }
}

/// The first position at or after `from` at which `part` stands.
pub open spec fn position(s: Seq<char>, part: Seq<char>, from: int) -> Option<int>
    decreases s.len() + 1 - from,
{
    if from < 0 || from > s.len() {
        None
    } else if stands_at(s, part, from) {
        Some(from)
    } else {
        position(s, part, from + 1)
    }
}

pub(crate) fn find_position(v: &[char], part: &[char], from: usize) -> (r: Option<usize>)
    requires
        from <= v.len(),
    ensures
        match r {
            Some(i) => position(v@, part@, from as int) == Some(i as int) && from <= i
                && stands_at(v@, part@, i as int),
            None => position(v@, part@, from as int) is None,
        },
{
    let mut i: usize = from;
    loop
        invariant
            from <= i <= v.len(),
            position(v@, part@, from as int) == position(v@, part@, i as int),
        decreases v.len() - i,
    {
        if stands_here(v, part, i) {
            return Some(i);
        }
        if i == v.len() {
            assert(position(v@, part@, i + 1) is None);
            return None;
        }
        i = i + 1;
    }
}

/// `str::contains` with a string.
pub fn contains(s: &str, part: &str) -> (r: bool)
    ensures
        r == has(s@, part@),
{
    let v = chars_of(s);
    let p = chars_of(part);
    match find_from(&v, &p, 0) {
        Some(i) => {
            assert(stands_at(s@, part@, i as int));
            true
        },
        None => false,
    }
}

/// Whether a string holds white space.
pub fn contains_whitespace(s: &str) -> (r: bool)
    ensures
        r == has_space(s@),
{
    let v = chars_of(s);
    let mut i: usize = 0;
    while i < v.len()
        invariant
            i <= v.len(),
            v@ == s@,
            forall|j: int| 0 <= j < i ==> !is_space(#[trigger] s@[j]),
        decreases v.len() - i,
    {
        if is_whitespace(v[i]) {
            assert(is_space(s@[i as int]));
            return true;
        }
        i = i + 1;
    }
    false
}

/// `str::starts_with` with a string.
pub fn starts_with(s: &str, prefix: &str) -> (r: bool)
    ensures
        r == prefix@.is_prefix_of(s@),
{
    let v = chars_of(s);
    let p = chars_of(prefix);
    let r = stands_here(&v, &p, 0);
    assert(r == prefix@.is_prefix_of(s@)) by {
        if r {
            assert(s@.subrange(0, prefix@.len() as int) =~= prefix@);
        }
        if prefix@.is_prefix_of(s@) {
            assert(s@.subrange(0, prefix@.len() as int) =~= prefix@);
        }
    }
    r
}

/// `str::ends_with` with a string.
pub fn ends_with(s: &str, suffix: &str) -> (r: bool)
    ensures
        r == suffix@.is_suffix_of(s@),
{
    let v = chars_of(s);
    let p = chars_of(suffix);
    if p.len() > v.len() {
        return false;
    }
    let r = stands_here(&v, &p, v.len() - p.len());
    assert(r == suffix@.is_suffix_of(s@)) by {
        assert(s@.subrange(s@.len() - suffix@.len(), s@.len() as int) =~= s@.subrange(
            (s@.len() - suffix@.len()) as int,
            s@.len() as int,
        ));
    }
    r
}

/// `str::strip_prefix`, with `s` itself where the prefix is missing.
pub fn strip_prefix(s: &str, prefix: &str) -> (r: String)
    ensures
        r@ == without_prefix(s@, prefix@),
{
    if starts_with(s, prefix) {
        let v = chars_of(s);
        let n = chars_of(prefix).len();
        let rest = part_of(&v, n, v.len());
        assert(rest@ == s@.skip(prefix@.len() as int));
        string_of(&rest)
    } else {
        s.to_owned()
    }
}

/// `str::strip_suffix`, with `s` itself where the suffix is missing.
pub fn strip_suffix(s: &str, suffix: &str) -> (r: String)
    ensures
        r@ == without_suffix(s@, suffix@),
{
    if ends_with(s, suffix) {
        let v = chars_of(s);
        let n = chars_of(suffix).len();
        let rest = part_of(&v, 0, v.len() - n);
        assert(rest@ == s@.take(s@.len() - suffix@.len()));
        string_of(&rest)
    } else {
        s.to_owned()
    }
}

// ------------------------------------------------------------- splitting and joining

/// The pieces of `s` between the characters that satisfy `p`. There is always one more
/// piece than there are such characters.
pub open spec fn split_by(s: Seq<char>, p: spec_fn(char) -> bool) -> Seq<Seq<char>>
    decreases s.len(),
{
    if s.len() == 0 {
        seq![Seq::<char>::empty()]
    } else {
        let before = split_by(s.drop_last(), p);
        if p(s.last()) {
            before.push(Seq::<char>::empty())
        } else {
            before.drop_last().push(before.last().push(s.last()))
        }
    }
}

/// The predicate that holds of `separator` alone.
pub open spec fn equal_to(separator: char) -> spec_fn(char) -> bool {
    |c: char| c == separator
}

/// The pieces of `s` between the occurrences of `separator`.
pub open spec fn split_at(s: Seq<char>, separator: char) -> Seq<Seq<char>> {
    split_by(s, equal_to(separator))
}

/// The maximal runs of characters of `s` that are not white space.
pub open spec fn words(s: Seq<char>) -> Seq<Seq<char>> {
    non_empty(split_by(s, |c: char| is_space(c)))
}

/// The members of `parts` that are not empty, in their order.
pub open spec fn non_empty(parts: Seq<Seq<char>>) -> Seq<Seq<char>>
    decreases parts.len(),
{
    if parts.len() == 0 {
        parts
    } else if parts.last().len() > 0 {
        non_empty(parts.drop_last()).push(parts.last())
    } else {
        non_empty(parts.drop_last())
    }
}

/// `parts` one after another, with `separator` between each two.
pub open spec fn join(parts: Seq<Seq<char>>, separator: Seq<char>) -> Seq<char>
    decreases parts.len(),
{
    if parts.len() == 0 {
        Seq::<char>::empty()
    } else if parts.len() == 1 {
        parts[0]
    } else {
        join(parts.drop_last(), separator) + separator + parts.last()
    }
}

/// Splitting gives one part at least.
pub proof fn split_is_never_empty(s: Seq<char>, p: spec_fn(char) -> bool)
    ensures
        split_by(s, p).len() >= 1,
    decreases s.len(),
{
    if s.len() > 0 {
        split_is_never_empty(s.drop_last(), p);
    }
}

/// A text without separators is one piece, and only such a text is.
pub proof fn split_of_one_piece(s: Seq<char>, p: spec_fn(char) -> bool)
    ensures
        split_by(s, p).len() == 1 <==> (forall|i: int| 0 <= i < s.len() ==> !p(#[trigger] s[i])),
        split_by(s, p).len() == 1 ==> split_by(s, p) == seq![s],
    decreases s.len(),
{
    split_is_never_empty(s, p);
    if s.len() > 0 {
        let before = s.drop_last();
        split_of_one_piece(before, p);
        split_is_never_empty(before, p);
        if !p(s.last()) {
            assert forall|i: int| 0 <= i < s.len() && split_by(s, p).len() == 1 implies !p(
                #[trigger] s[i],
            ) by {
                if i < before.len() {
                    assert(before[i] == s[i]);
                }
            }
            if forall|i: int| 0 <= i < s.len() ==> !p(#[trigger] s[i]) {
                assert forall|i: int| 0 <= i < before.len() implies !p(#[trigger] before[i]) by {
                    assert(before[i] == s[i]);
                }
            }
            if split_by(s, p).len() == 1 {
                assert(before.push(s.last()) == s);
                assert(split_by(s, p) =~= seq![s]);
            }
        } else {
            assert(p(s[s.len() - 1]));
        }
    } else {
        assert(s =~= Seq::<char>::empty());
    }
}

/// What follows a separator does not change the piece before it.
pub proof fn first_piece_stays(s: Seq<char>, more: Seq<char>, p: spec_fn(char) -> bool)
    requires
        split_by(s, p).len() >= 2,
    ensures
        split_by(s + more, p).len() >= 2,
        split_by(s + more, p)[0] == split_by(s, p)[0],
    decreases more.len(),
{
    if more.len() == 0 {
        assert(s + more == s);
    } else {
        assert((s + more).drop_last() == s + more.drop_last());
        first_piece_stays(s, more.drop_last(), p);
    }
}

/// What stands before a text and holds no separator belongs to its first piece.
pub proof fn first_piece_grows(before: Seq<char>, s: Seq<char>, p: spec_fn(char) -> bool)
    requires
        forall|i: int| 0 <= i < before.len() ==> !p(#[trigger] before[i]),
    ensures
        split_by(before + s, p) == split_by(s, p).update(0, before + split_by(s, p)[0]),
    decreases s.len(),
{
    split_is_never_empty(s, p);
    if s.len() == 0 {
        split_of_one_piece(before, p);
        assert(before + s == before);
        assert(split_by(s, p)[0] == Seq::<char>::empty());
        assert(before + Seq::<char>::empty() == before);
        assert(seq![before] =~= split_by(s, p).update(0, before));
    } else {
        assert((before + s).drop_last() == before + s.drop_last());
        first_piece_grows(before, s.drop_last(), p);
        split_is_never_empty(s.drop_last(), p);
        let short = split_by(s.drop_last(), p);
        if !p(s.last()) {
            if short.len() == 1 {
                assert((before + short[0]).push(s.last()) == before + short[0].push(s.last()));
            }
        }
        assert(split_by(before + s, p) =~= split_by(s, p).update(0, before + split_by(s, p)[0]));
    }
}

/// A change of characters that leaves the separators alone changes each piece by itself.
pub proof fn split_of_changed(
    s: Seq<char>,
    f: spec_fn(char) -> char,
    p: spec_fn(char) -> bool,
)
    requires
        forall|c: char| #[trigger] p(f(c)) == p(c),
    ensures
        split_by(s.map_values(f), p) == split_by(s, p).map_values(
            |piece: Seq<char>| piece.map_values(f),
        ),
    decreases s.len(),
{
    let each = |piece: Seq<char>| piece.map_values(f);
    if s.len() == 0 {
        assert(s.map_values(f) == s);
        assert(each(Seq::<char>::empty()) =~= Seq::<char>::empty());
        assert(split_by(s, p).map_values(each) =~= split_by(s, p));
    } else {
        let before = s.drop_last();
        let changed = s.map_values(f);
        assert(changed.drop_last() =~= before.map_values(f));
        assert(changed.last() == f(s.last()));
        assert(p(f(s.last())) == p(s.last()));
        split_of_changed(before, f, p);
        split_is_never_empty(before, p);
        let pieces = split_by(before, p);
        if p(s.last()) {
            assert(each(Seq::<char>::empty()) =~= Seq::<char>::empty());
        } else {
            assert(each(pieces.last().push(s.last())) =~= each(pieces.last()).push(f(s.last())));
        }
        assert(split_by(changed, p) =~= split_by(s, p).map_values(each));
    }
}

/// Every piece is a part of the text, and the last one its end.
pub proof fn pieces_are_parts(s: Seq<char>, p: spec_fn(char) -> bool)
    ensures
        split_by(s, p).last().is_suffix_of(s),
        forall|i: int| 0 <= i < split_by(s, p).len() ==> has(s, #[trigger] split_by(s, p)[i]),
    decreases s.len(),
{
    let pieces = split_by(s, p);
    split_is_never_empty(s, p);
    if s.len() == 0 {
        assert(pieces.last() =~= s);
        assert(s.subrange(0, 0) =~= pieces[0]);
        assert(stands_at(s, pieces[0], 0));
    } else {
        let short = s.drop_last();
        let before = split_by(short, p);
        split_is_never_empty(short, p);
        pieces_are_parts(short, p);
        assert forall|i: int| 0 <= i < pieces.len() implies has(s, #[trigger] pieces[i]) by {
            if i < before.len() && (p(s.last()) || i < before.len() - 1) {
                assert(pieces[i] == before[i]);
                let k = choose|k: int| stands_at(short, before[i], k);
                assert(s.subrange(k, k + before[i].len()) =~= short.subrange(
                    k,
                    k + before[i].len(),
                ));
                assert(stands_at(s, before[i], k));
            } else {
                let last = pieces.last();
                let k = s.len() - last.len();
                assert(s.subrange(k, s.len() as int) =~= last) by {
                    if !p(s.last()) {
                        assert(short.subrange(short.len() - before.last().len(), short.len() as int)
                            == before.last());
                    }
                }
                assert(stands_at(s, last, k));
            }
        }
        assert(pieces.last().is_suffix_of(s)) by {
            if p(s.last()) {
                assert(s.subrange(s.len() as int, s.len() as int) =~= pieces.last());
            } else {
                assert(short.subrange(short.len() - before.last().len(), short.len() as int)
                    == before.last());
                assert(s.subrange(s.len() - pieces.last().len(), s.len() as int)
                    =~= pieces.last());
            }
        }
    }
}

/// What is true of every character of a text is true of every character of its pieces, and
/// no separator is among these.
pub proof fn pieces_keep(s: Seq<char>, p: spec_fn(char) -> bool, q: spec_fn(char) -> bool)
    requires
        forall|i: int| 0 <= i < s.len() ==> q(#[trigger] s[i]),
    ensures
        forall|k: int, i: int|
            0 <= k < split_by(s, p).len() && 0 <= i < split_by(s, p)[k].len() ==> q(
                #[trigger] split_by(s, p)[k][i],
            ) && !p(split_by(s, p)[k][i]),
    decreases s.len(),
{
    split_is_never_empty(s, p);
    if s.len() > 0 {
        let short = s.drop_last();
        split_is_never_empty(short, p);
        assert forall|i: int| 0 <= i < short.len() implies q(#[trigger] short[i]) by {
            assert(short[i] == s[i]);
        }
        pieces_keep(short, p, q);
        let before = split_by(short, p);
        let pieces = split_by(s, p);
        assert forall|k: int, i: int|
            0 <= k < pieces.len() && 0 <= i < pieces[k].len() implies q(
            #[trigger] pieces[k][i],
        ) && !p(pieces[k][i]) by {
            if k < before.len() && i < before[k].len() {
                assert(pieces[k][i] == before[k][i]);
            } else {
                assert(pieces[k][i] == s[s.len() - 1]);
            }
        }
    }
}

/// The members that are not empty are members.
pub proof fn non_empty_are_members(parts: Seq<Seq<char>>)
    ensures
        forall|i: int|
            0 <= i < non_empty(parts).len() ==> (#[trigger] non_empty(parts)[i]).len() > 0
                && parts.contains(non_empty(parts)[i]),
    decreases parts.len(),
{
    if parts.len() > 0 {
        let before = parts.drop_last();
        non_empty_are_members(before);
        assert forall|i: int| 0 <= i < non_empty(parts).len() implies (#[trigger] non_empty(
            parts,
        )[i]).len() > 0 && parts.contains(non_empty(parts)[i]) by {
            if i < non_empty(before).len() {
                let x = non_empty(before)[i];
                let k = choose|k: int| 0 <= k < before.len() && before[k] == x;
                assert(parts[k] == x);
            } else {
                assert(parts[parts.len() - 1] == parts.last());
            }
        }
    }
}

/// Where no member is empty, all are kept.
pub proof fn none_is_empty(parts: Seq<Seq<char>>)
    requires
        forall|i: int| 0 <= i < parts.len() ==> (#[trigger] parts[i]).len() > 0,
    ensures
        non_empty(parts) == parts,
    decreases parts.len(),
{
    if parts.len() > 0 {
        let before = parts.drop_last();
        assert forall|i: int| 0 <= i < before.len() implies (#[trigger] before[i]).len() > 0 by {
            assert(before[i] == parts[i]);
        }
        none_is_empty(before);
        assert(before.push(parts.last()) =~= parts);
    }
}

proof fn last_piece_grows(s: Seq<char>, more: Seq<char>, p: spec_fn(char) -> bool)
    requires
        forall|i: int| 0 <= i < more.len() ==> !p(#[trigger] more[i]),
    ensures
        split_by(s + more, p) == split_by(s, p).drop_last().push(split_by(s, p).last() + more),
    decreases more.len(),
{
    split_is_never_empty(s, p);
    if more.len() == 0 {
        assert(s + more == s);
        assert(split_by(s, p).last() + more == split_by(s, p).last());
        assert(split_by(s, p) =~= split_by(s, p).drop_last().push(split_by(s, p).last()));
    } else {
        let short = more.drop_last();
        assert forall|i: int| 0 <= i < short.len() implies !p(#[trigger] short[i]) by {
            assert(short[i] == more[i]);
        }
        last_piece_grows(s, short, p);
        assert((s + more).drop_last() == s + short);
        assert((s + more).last() == more.last());
        assert(!p(more[more.len() - 1]));
        assert((split_by(s, p).last() + short).push(more.last()) =~= split_by(s, p).last() + more);
        assert(split_by(s + more, p) =~= split_by(s, p).drop_last().push(
            split_by(s, p).last() + more,
        ));
    }
}

/// Splitting undoes joining, where no part holds the separator.
pub proof fn splitting_undoes_joining(parts: Seq<Seq<char>>, separator: char)
    requires
        parts.len() > 0,
        forall|k: int, i: int|
            0 <= k < parts.len() && 0 <= i < parts[k].len() ==> #[trigger] parts[k][i]
                != separator,
    ensures
        split_at(join(parts, seq![separator]), separator) == parts,
    decreases parts.len(),
{
    let p = equal_to(separator);
    let last = parts.last();
    assert forall|i: int| 0 <= i < last.len() implies !p(#[trigger] last[i]) by {
        assert(parts[parts.len() - 1][i] == last[i]);
    }
    if parts.len() == 1 {
        split_of_one_piece(last, p);
        assert(parts =~= seq![last]);
    } else {
        let front = parts.drop_last();
        assert forall|k: int, i: int|
            0 <= k < front.len() && 0 <= i < front[k].len() implies #[trigger] front[k][i]
            != separator by {
            assert(parts[k][i] == front[k][i]);
        }
        splitting_undoes_joining(front, separator);
        let ended = join(front, seq![separator]) + seq![separator];
        assert(ended.drop_last() =~= join(front, seq![separator]));
        assert(split_by(ended, p) == front.push(Seq::<char>::empty()));
        last_piece_grows(ended, last, p);
        assert(split_by(ended, p).drop_last() =~= front);
        assert(Seq::<char>::empty() + last =~= last);
        assert(front.push(last) =~= parts);
    }
}

pub(crate) fn split_chars_by<F: Fn(char) -> bool>(
    v: &[char],
    f: F,
    p: Ghost<spec_fn(char) -> bool>,
) -> (r: Vec<String>)
    requires
        forall|c: char| call_requires(f, (c,)),
        forall|c: char, b: bool| call_ensures(f, (c,), b) ==> b == p@(c),
    ensures
        texts(r@) == split_by(v@, p@),
{
    let mut r: Vec<String> = Vec::new();
    let mut current = String::new();
    let mut i: usize = 0;
    while i < v.len()
        invariant
            i <= v.len(),
            forall|c: char| call_requires(f, (c,)),
            forall|c: char, b: bool| call_ensures(f, (c,), b) ==> b == p@(c),
            texts(r@).push(current@) == split_by(v@.take(i as int), p@),
        decreases v.len() - i,
    {
        assert(v@.take(i + 1).drop_last() == v@.take(i as int));
        let ghost before = texts(r@).push(current@);
        assert(before.drop_last() == texts(r@));
        assert(before.last() == current@);
        if f(v[i]) {
            let ghost old_texts = texts(r@);
            let ghost finished = current@;
            r.push(current);
            current = String::new();
            assert(texts(r@) == old_texts.push(finished));
        } else {
            current.push(v[i]);
        }
        i = i + 1;
    }
    assert(v@.take(i as int) == v@);
    let ghost old_texts = texts(r@);
    let ghost finished = current@;
    r.push(current);
    assert(texts(r@) == old_texts.push(finished));
    r
}

/// `str::split` with one character.
pub fn split(s: &str, separator: char) -> (r: Vec<String>)
    ensures
        texts(r@) == split_at(s@, separator),
{
    let v = chars_of(s);
    let is_separator = move |c: char| -> (b: bool)
        ensures
            b == (c == separator),
        { c == separator };
    split_chars_by(&v, is_separator, Ghost(equal_to(separator)))
}

/// A line without the carriage return it may end in.
pub open spec fn without_return(line: Seq<char>) -> Seq<char> {
    if line.len() > 0 && line.last() == '\r' {
        line.drop_last()
    } else {
        line
    }
}

/// The lines of a text. A line break at the end starts no further line.
pub open spec fn lines_of(s: Seq<char>) -> Seq<Seq<char>> {
    let parts = split_at(s, '\n');
    let whole = if parts.last().len() == 0 {
        parts.drop_last()
    } else {
        parts
    };
    Seq::new(
        whole.len(),
        |i: int|
            if i < parts.len() - 1 {
                without_return(whole[i])
            } else {
                whole[i]
            },
    )
}

/// `str::lines`.
pub fn lines(s: &str) -> (r: Vec<String>)
    ensures
        texts(r@) == lines_of(s@),
{
    let parts = split(s, '\n');
    let ghost all = split_at(s@, '\n');
    proof {
        split_is_never_empty(s@, equal_to('\n'));
    }
    assert(texts(parts@).len() == parts.len());
    let last = parts.len() - 1;
    let count: usize = if parts[last].as_str().is_empty() {
        last
    } else {
        parts.len()
    };
    let ghost whole = if all.last().len() == 0 {
        all.drop_last()
    } else {
        all
    };
    assert(whole.len() == count);
    let mut r: Vec<String> = Vec::new();
    let mut i: usize = 0;
    assert(texts(r@) =~= lines_of(s@).take(0));
    while i < count
        invariant
            i <= count <= parts.len(),
            parts.len() > 0,
            last == parts.len() - 1,
            all == split_at(s@, '\n'),
            all == texts(parts@),
            whole == (if all.last().len() == 0 {
                all.drop_last()
            } else {
                all
            }),
            whole.len() == count,
            lines_of(s@).len() == count,
            texts(r@) == lines_of(s@).take(i as int),
        decreases count - i,
    {
        assert(whole[i as int] == parts@[i as int]@);
        let line = chars_of(parts[i].as_str());
        let text = if i < last && line.len() > 0 && line[line.len() - 1] == '\r' {
            let short = part_of(&line, 0, line.len() - 1);
            assert(short@ =~= parts@[i as int]@.drop_last());
            string_of(&short)
        } else {
            parts[i].clone()
        };
        let ghost before = texts(r@);
        let ghost added = text@;
        r.push(text);
        assert(texts(r@) =~= before.push(added));
        assert(lines_of(s@)[i as int] == added);
        assert(lines_of(s@).take(i + 1) =~= lines_of(s@).take(i as int).push(added));
        i = i + 1;
    }
    assert(lines_of(s@).take(i as int) =~= lines_of(s@));
    r
}

/// Drops the empty strings of a list.
pub fn keep_non_empty(parts: &Vec<String>) -> (r: Vec<String>)
    ensures
        texts(r@) == non_empty(texts(parts@)),
{
    let mut r: Vec<String> = Vec::new();
    let mut i: usize = 0;
    while i < parts.len()
        invariant
            i <= parts.len(),
            texts(r@) == non_empty(texts(parts@).take(i as int)),
        decreases parts.len() - i,
    {
        assert(texts(parts@).take(i + 1).drop_last() == texts(parts@).take(i as int));
        assert(texts(parts@).take(i + 1).last() == parts@[i as int]@);
        if !parts[i].as_str().is_empty() {
            let ghost old_texts = texts(r@);
            r.push(parts[i].clone());
            assert(texts(r@) == old_texts.push(parts@[i as int]@));
        }
        i = i + 1;
    }
    assert(texts(parts@).take(i as int) == texts(parts@));
    r
}

/// `str::split_whitespace`.
pub fn split_whitespace(s: &str) -> (r: Vec<String>)
    ensures
        texts(r@) == words(s@),
{
    let v = chars_of(s);
    let pieces = split_chars_by(&v, is_whitespace, Ghost(|c: char| is_space(c)));
    keep_non_empty(&pieces)
}

/// `join` on a list of strings.
pub fn join_texts(parts: &Vec<String>, separator: &str) -> (r: String)
    ensures
        r@ == join(texts(parts@), separator@),
{
    let mut r = String::new();
    let mut i: usize = 0;
    while i < parts.len()
        invariant
            i <= parts.len(),
            r@ == join(texts(parts@).take(i as int), separator@),
        decreases parts.len() - i,
    {
        let ghost upto = texts(parts@).take(i + 1);
        assert(upto.drop_last() == texts(parts@).take(i as int));
        assert(upto.last() == parts@[i as int]@);
        if i > 0 {
            r.append(separator);
        } else {
            assert(Seq::<char>::empty() + parts@[i as int]@ == parts@[i as int]@);
        }
        r.append(parts[i].as_str());
        i = i + 1;
    }
    assert(texts(parts@).take(i as int) == texts(parts@));
    r
}

// ------------------------------------------------------------------- replacing

/// `s` with each occurrence of `from`, taken from the left, replaced by `to`.
pub open spec fn replace_all(s: Seq<char>, from: Seq<char>, to: Seq<char>) -> Seq<char>
    decreases s.len(),
{
    if s.len() == 0 || from.len() == 0 {
        s
    } else if from.is_prefix_of(s) {
        to + replace_all(s.skip(from.len() as int), from, to)
    } else {
        seq![s[0]] + replace_all(s.drop_first(), from, to)
    }
}

/// `str::replace` with a non-empty pattern.
pub fn replace(s: &str, from: &str, to: &str) -> (r: String)
    requires
        from@.len() > 0,
    ensures
        r@ == replace_all(s@, from@, to@),
{
    let v = chars_of(s);
    let pattern = chars_of(from);
    let mut r = String::new();
    let mut i: usize = 0;
    assert(v@.skip(0) == v@);
    assert(Seq::<char>::empty() + replace_all(s@, from@, to@) == replace_all(s@, from@, to@));
    while i < v.len()
        invariant
            i <= v.len(),
            v@ == s@,
            pattern@ == from@,
            from@.len() > 0,
            r@ + replace_all(v@.skip(i as int), from@, to@) == replace_all(s@, from@, to@),
        decreases v.len() - i,
    {
        let ghost rest = v@.skip(i as int);
        let ghost done = r@;
        if stands_here(&v, &pattern, i) {
            assert(v@.subrange(i as int, i + from@.len()) =~= from@);
            assert(from@.is_prefix_of(rest)) by {
                assert(rest.subrange(0, from@.len() as int) =~= from@);
            }
            r.append(to);
            i = i + pattern.len();
            assert(rest.skip(from@.len() as int) == v@.skip(i as int));
            assert(r@ + replace_all(v@.skip(i as int), from@, to@) == done + (to@
                + replace_all(v@.skip(i as int), from@, to@)));
        } else {
            assert(!from@.is_prefix_of(rest)) by {
                if from@.is_prefix_of(rest) {
                    assert(v@.subrange(i as int, i + from@.len()) =~= from@);
                }
            }
            r.push(v[i]);
            assert(rest.drop_first() == v@.skip(i + 1));
            i = i + 1;
            assert(r@ + replace_all(v@.skip(i as int), from@, to@) == done + (seq![rest[0]]
                + replace_all(v@.skip(i as int), from@, to@)));
        }
    }
    assert(v@.skip(i as int) == Seq::<char>::empty());
    assert(r@ + Seq::<char>::empty() == r@);
    r
}

/// Whether `q` could stand so that it covers a part of `to`, `d` characters behind where
/// `to` starts: the characters they share there are the same.
pub open spec fn agree_at(to: Seq<char>, q: Seq<char>, d: int) -> bool {
    forall|i: int| 0 <= i < q.len() && 0 <= d + i < to.len() ==> #[trigger] q[i] == to[d + i]
}

/// Whether no occurrence of `q` can overlap an occurrence of `to`.
pub open spec fn clear_of(to: Seq<char>, q: Seq<char>) -> bool {
    &&& to.len() > 0 && q.len() > 0
    &&& forall|d: int| -q.len() < d < to.len() ==> !#[trigger] agree_at(to, q, d)
}

/// A text that stands in a part stands in the whole.
pub proof fn part_of_a_part(s: Seq<char>, part: Seq<char>, q: Seq<char>)
    requires
        has(s, part),
        has(part, q),
    ensures
        has(s, q),
{
    let i = choose|i: int| stands_at(s, part, i);
    let j = choose|j: int| stands_at(part, q, j);
    assert(s.subrange(i + j, i + j + q.len()) =~= part.subrange(j, j + q.len())) by {
        assert(s.subrange(i, i + part.len()) == part);
    }
    assert(stands_at(s, q, i + j));
}

/// Nothing is replaced in a text without the pattern.
pub proof fn nothing_to_replace(s: Seq<char>, from: Seq<char>, to: Seq<char>)
    requires
        lacks(s, from),
    ensures
        replace_all(s, from, to) == s,
    decreases s.len(),
{
    if s.len() > 0 && from.len() > 0 {
        assert(!from.is_prefix_of(s)) by {
            if from.is_prefix_of(s) {
                assert(stands_at(s, from, 0));
            }
        }
        let rest = s.drop_first();
        assert(lacks(rest, from)) by {
            if has(rest, from) {
                let i = choose|i: int| stands_at(rest, from, i);
                assert(s.subrange(i + 1, i + 1 + from.len()) =~= rest.subrange(
                    i,
                    i + from.len(),
                ));
                assert(stands_at(s, from, i + 1));
            }
        }
        nothing_to_replace(rest, from, to);
        assert(seq![s[0]] + rest =~= s);
    }
}

/// What is true of every character of a text and of the replacement stays true.
pub proof fn replace_keeps(
    s: Seq<char>,
    from: Seq<char>,
    to: Seq<char>,
    q: spec_fn(char) -> bool,
)
    requires
        forall|i: int| 0 <= i < s.len() ==> q(#[trigger] s[i]),
        forall|i: int| 0 <= i < to.len() ==> q(#[trigger] to[i]),
    ensures
        forall|i: int|
            0 <= i < replace_all(s, from, to).len() ==> q(#[trigger] replace_all(s, from, to)[i]),
    decreases s.len(),
{
    if s.len() > 0 && from.len() > 0 {
        if from.is_prefix_of(s) {
            let tail = s.skip(from.len() as int);
            assert forall|i: int| 0 <= i < tail.len() implies q(#[trigger] tail[i]) by {
                assert(tail[i] == s[from.len() + i]);
            }
            replace_keeps(tail, from, to, q);
            let r = replace_all(tail, from, to);
            assert forall|i: int| 0 <= i < (to + r).len() implies q(#[trigger] (to + r)[i]) by {
                if i >= to.len() {
                    assert((to + r)[i] == r[i - to.len()]);
                }
            }
        } else {
            let tail = s.drop_first();
            assert forall|i: int| 0 <= i < tail.len() implies q(#[trigger] tail[i]) by {
                assert(tail[i] == s[i + 1]);
            }
            replace_keeps(tail, from, to, q);
            let r = replace_all(tail, from, to);
            let all = seq![s[0]] + r;
            assert forall|i: int| 0 <= i < all.len() implies q(#[trigger] all[i]) by {
                if i > 0 {
                    assert(all[i] == r[i - 1]);
                }
            }
        }
    }
}

/// What is true of every character of the parts and of the separator is true of every
/// character of the whole.
pub proof fn join_keeps(
    parts: Seq<Seq<char>>,
    separator: Seq<char>,
    q: spec_fn(char) -> bool,
)
    requires
        forall|k: int, i: int|
            0 <= k < parts.len() && 0 <= i < parts[k].len() ==> q(#[trigger] parts[k][i]),
        forall|i: int| 0 <= i < separator.len() ==> q(#[trigger] separator[i]),
    ensures
        forall|i: int|
            0 <= i < join(parts, separator).len() ==> q(#[trigger] join(parts, separator)[i]),
    decreases parts.len(),
{
    let all = join(parts, separator);
    if parts.len() == 1 {
        assert forall|i: int| 0 <= i < all.len() implies q(#[trigger] all[i]) by {
            assert(all[i] == parts[0][i]);
        }
    } else if parts.len() > 1 {
        let front = parts.drop_last();
        assert forall|k: int, i: int|
            0 <= k < front.len() && 0 <= i < front[k].len() implies q(#[trigger] front[k][i]) by {
            assert(front[k][i] == parts[k][i]);
        }
        join_keeps(front, separator, q);
        let n = join(front, separator).len() as int;
        assert forall|i: int| 0 <= i < all.len() implies q(#[trigger] all[i]) by {
            if i < n {
                assert(all[i] == join(front, separator)[i]);
            } else if i < n + separator.len() {
                assert(all[i] == separator[i - n]);
            } else {
                assert(all[i] == parts[parts.len() - 1][i - n - separator.len()]);
            }
        }
    }
}

/// A beginning that is clear of the replacement was there before replacing.
proof fn beginning_survives(
    s: Seq<char>,
    from: Seq<char>,
    to: Seq<char>,
    q: Seq<char>,
    k: int,
)
    requires
        from.len() > 0,
        clear_of(to, q),
        0 <= k <= q.len(),
        q.skip(k).is_prefix_of(replace_all(s, from, to)),
    ensures
        q.skip(k).is_prefix_of(s),
    decreases s.len(),
{
    let r = replace_all(s, from, to);
    let rest = q.skip(k);
    if k < q.len() && s.len() > 0 {
        assert forall|i: int| k <= i < q.len() implies #[trigger] q[i] == r[i - k] by {
            assert(rest[i - k] == q[i]);
            assert(r.subrange(0, rest.len() as int)[i - k] == rest[i - k]);
        }
        if from.is_prefix_of(s) {
            assert(agree_at(to, q, -k));
        } else {
            let tail = s.drop_first();
            let r2 = replace_all(tail, from, to);
            assert(r == seq![s[0]] + r2);
            assert(q[k] == r[0]);
            assert(q.skip(k + 1).is_prefix_of(r2)) by {
                assert(r2.subrange(0, q.len() - k - 1) =~= q.skip(k + 1)) by {
                    assert forall|i: int| 0 <= i < q.len() - k - 1 implies r2[i] == q.skip(
                        k + 1,
                    )[i] by {
                        assert(q[k + 1 + i] == r[i + 1]);
                    }
                }
            }
            beginning_survives(tail, from, to, q, k + 1);
            assert(s.subrange(0, rest.len() as int) =~= rest) by {
                assert forall|i: int| 0 <= i < rest.len() implies s[i] == rest[i] by {
                    if i > 0 {
                        assert(tail.subrange(0, q.len() - k - 1)[i - 1] == q.skip(k + 1)[i - 1]);
                        assert(tail[i - 1] == s[i]);
                    }
                }
            }
        }
    }
}

/// Replacing leaves no occurrence of the pattern, and makes none of any other text, where
/// the replacement is clear of it.
pub proof fn replacing_makes_none(s: Seq<char>, from: Seq<char>, to: Seq<char>, q: Seq<char>)
    requires
        from.len() > 0,
        clear_of(to, q),
        q == from || lacks(s, q),
    ensures
        lacks(replace_all(s, from, to), q),
    decreases s.len(),
{
    let r = replace_all(s, from, to);
    if has(r, q) {
        let x = choose|x: int| stands_at(r, q, x);
        assert forall|i: int| 0 <= i < q.len() implies #[trigger] q[i] == r[x + i] by {
            assert(r.subrange(x, x + q.len())[i] == q[i]);
        }
        if s.len() == 0 {
            assert(false);
        } else if from.is_prefix_of(s) {
            let tail = s.skip(from.len() as int);
            let r2 = replace_all(tail, from, to);
            assert(r == to + r2);
            if x < to.len() {
                assert(agree_at(to, q, x));
            } else {
                assert(r2.subrange(x - to.len(), x - to.len() + q.len()) =~= q);
                assert(stands_at(r2, q, x - to.len()));
                assert(has(tail, q) ==> has(s, q)) by {
                    if has(tail, q) {
                        assert(s.subrange(from.len() as int, s.len() as int) =~= tail);
                        assert(stands_at(s, tail, from.len() as int));
                        part_of_a_part(s, tail, q);
                    }
                }
                replacing_makes_none(tail, from, to, q);
            }
        } else {
            let tail = s.drop_first();
            let r2 = replace_all(tail, from, to);
            assert(r == seq![s[0]] + r2);
            if x == 0 {
                assert(q.skip(0) =~= q);
                assert(q.is_prefix_of(r));
                beginning_survives(s, from, to, q, 0);
                assert(stands_at(s, q, 0));
            } else {
                assert(r2.subrange(x - 1, x - 1 + q.len()) =~= q);
                assert(stands_at(r2, q, x - 1));
                assert(has(tail, q) ==> has(s, q)) by {
                    if has(tail, q) {
                        assert(s.subrange(1, s.len() as int) =~= tail);
                        assert(stands_at(s, tail, 1));
                        part_of_a_part(s, tail, q);
                    }
                }
                replacing_makes_none(tail, from, to, q);
            }
        }
    }
}

/// Joining makes no occurrence of a text that the separator is clear of.
pub proof fn joining_makes_none(parts: Seq<Seq<char>>, separator: Seq<char>, q: Seq<char>)
    requires
        clear_of(separator, q),
        forall|i: int| 0 <= i < parts.len() ==> lacks(#[trigger] parts[i], q),
    ensures
        lacks(join(parts, separator), q),
    decreases parts.len(),
{
    let all = join(parts, separator);
    if has(all, q) {
        let x = choose|x: int| stands_at(all, q, x);
        if parts.len() == 0 {
            assert(false);
        } else if parts.len() == 1 {
            assert(has(parts[0], q));
        } else {
            let front = join(parts.drop_last(), separator);
            let last = parts.last();
            let n = front.len() as int;
            assert(all == front + separator + last);
            assert forall|i: int| 0 <= i < q.len() implies #[trigger] q[i] == all[x + i] by {
                assert(all.subrange(x, x + q.len())[i] == q[i]);
            }
            if x + q.len() <= n {
                assert(front.subrange(x, x + q.len()) =~= q);
                assert(stands_at(front, q, x));
                assert forall|i: int| 0 <= i < parts.drop_last().len() implies lacks(
                    #[trigger] parts.drop_last()[i],
                    q,
                ) by {
                    assert(parts.drop_last()[i] == parts[i]);
                }
                joining_makes_none(parts.drop_last(), separator, q);
            } else if x >= n + separator.len() {
                let y = x - n - separator.len();
                assert(last.subrange(y, y + q.len()) =~= q);
                assert(stands_at(last, q, y));
                assert(has(parts[parts.len() - 1], q));
            } else {
                assert(agree_at(separator, q, x - n));
            }
        }
    }
}

// ------------------------------------------------------------------------ lists

/// Whether `name` is a member of a list.
pub fn list_has(list: &Vec<String>, name: &str) -> (r: bool)
    ensures
        r == texts(list@).contains(name@),
{
    let mut i: usize = 0;
    while i < list.len()
        invariant
            i <= list.len(),
            forall|j: int| 0 <= j < i ==> texts(list@)[j] != name@,
        decreases list.len() - i,
    {
        if same(list[i].as_str(), name) {
            assert(texts(list@)[i as int] == name@);
            return true;
        }
        i = i + 1;
    }
    false
}

// ------------------------------------------------------------------ case and length

/// `str::eq_ignore_ascii_case`.
pub fn eq_ignore_ascii_case(a: &str, b: &str) -> (r: bool)
    ensures
        r == (ascii_lower(a@) == ascii_lower(b@)),
{
    let x = chars_of(a);
    let y = chars_of(b);
    let ghost p = ascii_lower(a@);
    let ghost q = ascii_lower(b@);
    if x.len() != y.len() {
        assert(p.len() != q.len());
        return false;
    }
    let mut i: usize = 0;
    while i < x.len()
        invariant
            i <= x.len(),
            x.len() == y.len(),
            x@ == a@,
            y@ == b@,
            p == ascii_lower(a@),
            q == ascii_lower(b@),
            forall|j: int| 0 <= j < i ==> p[j] == q[j],
        decreases x.len() - i,
    {
        if to_lower_char(x[i]) != to_lower_char(y[i]) {
            assert(p[i as int] != q[i as int]);
            return false;
        }
        i = i + 1;
    }
    assert(p =~= q);
    true
}

/// The first `n` characters of `s`, or all of it where it is shorter.
pub open spec fn shortened(s: Seq<char>, n: int) -> Seq<char> {
    if s.len() > n {
        s.take(n)
    } else {
        s
    }
}

pub fn shorten(s: &str, n: usize) -> (r: String)
    ensures
        r@ == shortened(s@, n as int),
{
    let v = chars_of(s);
    if v.len() > n {
        let head = part_of(&v, 0, n);
        assert(head@ == s@.take(n as int));
        string_of(&head)
    } else {
        s.to_owned()
    }
}

// --------------------------------------------------------------------------- laws

/// Trimming takes white space from both ends, all of it, and nothing else.
#[verifier::spinoff_prover]
pub proof fn trimming_takes_white_space_alone(s: Seq<char>) -> (ends: (int, int))
    ensures
        0 <= ends.0 <= ends.1 <= s.len(),
        trimmed(s) == s.subrange(ends.0, ends.1),
        forall|k: int| 0 <= k < ends.0 || ends.1 <= k < s.len() ==> is_space(#[trigger] s[k]),
        ends.0 < ends.1 ==> !is_space(s[ends.0]) && !is_space(s[ends.1 - 1]),
{
    let p = |c: char| is_space(c);
    let front = trim_front(s, p);
    trim_front_is_skip(s, p);
    trim_back_is_take(front, p);
    front_was_taken(s, p);
    back_was_taken(front, p);
    let i = s.len() - front.len();
    let j = i + trimmed(s).len();
    assert(trimmed(s) =~= s.subrange(i, j));
    assert forall|k: int| 0 <= k < i || j <= k < s.len() implies is_space(#[trigger] s[k]) by {
        if k < i {
            assert(p(s[k]));
        } else {
            assert(front[k - i] == s[k]);
            assert(p(front[k - i]));
        }
    }
    (i, j)
}

proof fn front_was_taken(s: Seq<char>, p: spec_fn(char) -> bool)
    ensures
        trim_front(s, p).len() <= s.len(),
        forall|k: int| 0 <= k < s.len() - trim_front(s, p).len() ==> p(#[trigger] s[k]),
    decreases s.len(),
{
    if s.len() > 0 && p(s[0]) {
        let rest = s.drop_first();
        front_was_taken(rest, p);
        assert forall|k: int| 0 <= k < s.len() - trim_front(s, p).len() implies p(
            #[trigger] s[k],
        ) by {
            if k > 0 {
                assert(rest[k - 1] == s[k]);
            }
        }
    }
}

proof fn back_was_taken(s: Seq<char>, p: spec_fn(char) -> bool)
    ensures
        trim_back(s, p).len() <= s.len(),
        forall|k: int| trim_back(s, p).len() <= k < s.len() ==> p(#[trigger] s[k]),
    decreases s.len(),
{
    if s.len() > 0 && p(s.last()) {
        let rest = s.drop_last();
        back_was_taken(rest, p);
        assert forall|k: int| trim_back(s, p).len() <= k < s.len() implies p(#[trigger] s[k]) by {
            if k < rest.len() {
                assert(rest[k] == s[k]);
            }
        }
    }
}

/// A text stands in whatever it was put into.
pub proof fn stands_inside(before: Seq<char>, part: Seq<char>, after: Seq<char>)
    ensures
        has(before + part + after, part),
        stands_at(before + part + after, part, before.len() as int),
{
    let i = before.len() as int;
    assert((before + part + after).subrange(i, i + part.len()) =~= part);
    assert(stands_at(before + part + after, part, i));
}

/// Joining puts every part in, in order: before a part stand the earlier ones, joined, after it
/// the later ones, and between any two the separator.
#[verifier::spinoff_prover]
pub proof fn joining_keeps_every_part(parts: Seq<Seq<char>>, separator: Seq<char>, i: int)
    requires
        0 <= i < parts.len(),
    ensures
        join(parts, separator) == (if i == 0 {
            Seq::<char>::empty()
        } else {
            join(parts.take(i), separator) + separator
        }) + parts[i] + (if i == parts.len() - 1 {
            Seq::<char>::empty()
        } else {
            separator + join(parts.skip(i + 1), separator)
        }),
        has(join(parts, separator), parts[i]),
    decreases parts.len(),
{
    let before = if i == 0 {
        Seq::<char>::empty()
    } else {
        join(parts.take(i), separator) + separator
    };
    let after = if i == parts.len() - 1 {
        Seq::<char>::empty()
    } else {
        separator + join(parts.skip(i + 1), separator)
    };
    let front = parts.drop_last();
    if i == parts.len() - 1 {
        assert(parts.take(i) == front);
        assert(before + parts[i] + after =~= join(parts, separator));
    } else {
        joining_keeps_every_part(front, separator, i);
        assert(front.take(i) == parts.take(i));
        assert(front[i] == parts[i]);
        let rest = parts.skip(i + 1);
        if rest.len() == 1 {
            assert(rest[0] == parts.last());
            assert(i == front.len() - 1);
        } else {
            assert(rest.drop_last() == front.skip(i + 1));
            assert(rest.last() == parts.last());
        }
        assert(before + parts[i] + after =~= join(parts, separator));
    }
    stands_inside(before, parts[i], after);
}

/// What stands in a text stands there too when more follows.
pub proof fn stays_in_front(s: Seq<char>, more: Seq<char>, part: Seq<char>)
    requires
        has(s, part),
    ensures
        has(s + more, part),
{
    let i = choose|i: int| stands_at(s, part, i);
    assert((s + more).subrange(i, i + part.len()) =~= s.subrange(i, i + part.len()));
    assert(stands_at(s + more, part, i));
}

/// What stands in a text stands there too behind another.
pub proof fn stays_behind(before: Seq<char>, s: Seq<char>, part: Seq<char>)
    requires
        has(s, part),
    ensures
        has(before + s, part),
{
    let i = choose|i: int| stands_at(s, part, i);
    let at = before.len() + i;
    assert((before + s).subrange(at, at + part.len()) =~= s.subrange(i, i + part.len()));
    assert(stands_at(before + s, part, at));
}

/// A text stands in itself.
pub proof fn stands_in_itself(s: Seq<char>)
    ensures
        has(s, s),
{
    assert(s.subrange(0, s.len() as int) =~= s);
    assert(stands_at(s, s, 0));
}

/// What survives trimming: a part that begins and ends with something else than white space.
#[verifier::spinoff_prover]
pub proof fn trimming_keeps_what_is_not_blank_at_its_ends(
    before: Seq<char>,
    part: Seq<char>,
    after: Seq<char>,
)
    requires
        part.len() > 0,
        !is_space(part[0]),
        !is_space(part.last()),
    ensures
        has(trimmed(before + part + after), part),
{
    let s = before + part + after;
    let ends = trimming_takes_white_space_alone(s);
    let at = before.len() as int;
    let n = part.len() as int;
    assert(s[at] == part[0]);
    assert(s[at + n - 1] == part[n - 1]);
    still_there(s, part, at, ends.0, ends.1);
}

proof fn still_there(s: Seq<char>, part: Seq<char>, at: int, from: int, to: int)
    requires
        0 <= from <= at,
        at + part.len() <= to <= s.len(),
        forall|k: int| 0 <= k < part.len() ==> s[at + k] == #[trigger] part[k],
    ensures
        has(s.subrange(from, to), part),
{
    let i = at - from;
    assert(s.subrange(from, to).subrange(i, i + part.len()) =~= part);
    assert(stands_at(s.subrange(from, to), part, i));
}

/// The position that is found is the first one there is.
pub proof fn the_first_position_is_found(s: Seq<char>, part: Seq<char>, from: int)
    requires
        0 <= from <= s.len(),
    ensures
        match position(s, part, from) {
            Some(i) => from <= i && stands_at(s, part, i) && forall|k: int|
                from <= k < i ==> !#[trigger] stands_at(s, part, k),
            None => forall|k: int| from <= k ==> !#[trigger] stands_at(s, part, k),
        },
    decreases s.len() + 1 - from,
{
    reveal_with_fuel(position, 2);
    if !stands_at(s, part, from) && from < s.len() {
        the_first_position_is_found(s, part, from + 1);
    }
}

/// Splitting goes piece by piece: what follows a separator and holds none is one piece more.
pub proof fn splitting_goes_piece_by_piece(
    before: Seq<char>,
    separator: char,
    piece: Seq<char>,
    p: spec_fn(char) -> bool,
)
    requires
        p(separator),
        forall|i: int| 0 <= i < piece.len() ==> !p(#[trigger] piece[i]),
    ensures
        split_by(before + seq![separator] + piece, p) == split_by(before, p).push(piece),
    decreases piece.len(),
{
    let s = before + seq![separator] + piece;
    if piece.len() == 0 {
        assert(s.drop_last() =~= before);
        assert(s.last() == separator);
        assert(piece =~= Seq::<char>::empty());
    } else {
        let front = piece.drop_last();
        assert forall|i: int| 0 <= i < front.len() implies !p(#[trigger] front[i]) by {
            assert(front[i] == piece[i]);
        }
        splitting_goes_piece_by_piece(before, separator, front, p);
        assert(s.drop_last() =~= before + seq![separator] + front);
        assert(s.last() == piece[piece.len() - 1]);
        assert(front.push(piece.last()) =~= piece);
        assert(split_by(before, p).push(front).drop_last() =~= split_by(before, p));
    }
}

/// A text that neither begins nor ends with white space is its own trimmed form.
pub proof fn nothing_to_trim(s: Seq<char>)
    requires
        s.len() > 0,
        !is_space(s[0]),
        !is_space(s.last()),
    ensures
        trimmed(s) == s,
{
    let ends = trimming_takes_white_space_alone(s);
    if ends.0 > 0 {
        assert(is_space(s[0]));
    }
    if ends.1 < s.len() {
        assert(is_space(s[s.len() - 1]));
    }
    assert(s.subrange(0, s.len() as int) =~= s);
}

/// Taking off a beginning or an end leaves what it was put before or behind, and a text without it
/// as it is.
pub proof fn what_was_put_on_comes_off(s: Seq<char>, part: Seq<char>)
    ensures
        without_prefix(part + s, part) == s,
        without_suffix(s + part, part) == s,
        !part.is_prefix_of(s) ==> without_prefix(s, part) == s,
        !part.is_suffix_of(s) ==> without_suffix(s, part) == s,
{
    let n = part.len() as int;
    assert((part + s).subrange(0, n) =~= part);
    assert((part + s).skip(n) =~= s);
    let t = s + part;
    assert(t.subrange(t.len() - n, t.len() as int) =~= part);
    assert(t.take(t.len() - n) =~= s);
}

/// A text is shortened to its beginning, and only where it is longer.
pub proof fn a_shortened_text_is_a_beginning(s: Seq<char>, n: nat)
    ensures
        shortened(s, n as int).is_prefix_of(s),
        s.len() <= n ==> shortened(s, n as int) == s,
        s.len() > n ==> shortened(s, n as int).len() == n,
{
    assert(s.subrange(0, s.len() as int) =~= s);
    assert(s.len() > n ==> s.subrange(0, n as int) =~= s.take(n as int));
}

/// Small letters and capitals stand for one another, and nothing else changes.
pub proof fn letters_change_case_and_nothing_else(c: char)
    ensures
        'A' <= c <= 'Z' ==> lower_char(c) as int == c as int + 32 && upper_char(lower_char(c)) == c,
        'a' <= c <= 'z' ==> upper_char(c) as int == c as int - 32 && lower_char(upper_char(c)) == c,
        !('A' <= c <= 'Z') ==> lower_char(c) == c,
        !('a' <= c <= 'z') ==> upper_char(c) == c,
{
}

/// The words of a text hold no white space, and none of them is empty.
pub proof fn words_hold_no_white_space(s: Seq<char>, i: int, k: int)
    requires
        0 <= i < words(s).len(),
        0 <= k < words(s)[i].len(),
    ensures
        !is_space(words(s)[i][k]),
        words(s)[i].len() > 0,
{
    let p = |c: char| is_space(c);
    pieces_have_no_separator(s, p);
    kept_pieces_are_pieces(split_by(s, p), i);
    let j = choose|j: int| 0 <= j < split_by(s, p).len() && split_by(s, p)[j] == words(s)[i];
    assert(!p(split_by(s, p)[j][k]));
}

proof fn pieces_have_no_separator(s: Seq<char>, p: spec_fn(char) -> bool)
    ensures
        split_by(s, p).len() > 0,
        forall|j: int, k: int|
            0 <= j < split_by(s, p).len() && 0 <= k < split_by(s, p)[j].len() ==> !p(
                #[trigger] split_by(s, p)[j][k],
            ),
    decreases s.len(),
{
    if s.len() > 0 {
        let before = split_by(s.drop_last(), p);
        pieces_have_no_separator(s.drop_last(), p);
        let all = split_by(s, p);
        assert forall|j: int, k: int| 0 <= j < all.len() && 0 <= k < all[j].len() implies !p(
            #[trigger] all[j][k],
        ) by {
            if j < before.len() - 1 {
                assert(all[j] == before[j]);
                assert(!p(before[j][k]));
            } else if p(s.last()) {
                if j == before.len() - 1 {
                    assert(all[j] == before[j]);
                    assert(!p(before[j][k]));
                }
            } else if k < before.last().len() {
                assert(all[j][k] == before[j][k]);
                assert(!p(before[j][k]));
            }
        }
    }
}

proof fn kept_pieces_are_pieces(parts: Seq<Seq<char>>, i: int)
    requires
        0 <= i < non_empty(parts).len(),
    ensures
        non_empty(parts)[i].len() > 0,
        exists|j: int| 0 <= j < parts.len() && #[trigger] parts[j] == non_empty(parts)[i],
    decreases parts.len(),
{
    if parts.len() > 0 {
        let front = parts.drop_last();
        if i < non_empty(front).len() {
            kept_pieces_are_pieces(front, i);
            let j = choose|j: int| 0 <= j < front.len() && #[trigger] front[j] == non_empty(front)[i];
            assert(parts[j] == non_empty(parts)[i]);
        } else {
            assert(parts[parts.len() - 1] == non_empty(parts)[i]);
        }
    }
}

/// The lines of a text are those it was put together from.
pub proof fn a_text_has_the_lines_it_was_made_of(list: Seq<Seq<char>>)
    requires
        list.len() > 0,
        list.last().len() > 0,
        forall|k: int, i: int|
            0 <= k < list.len() && 0 <= i < list[k].len() ==> #[trigger] list[k][i] != '\n'
                && list[k][i] != '\r',
    ensures
        lines_of(join(list, seq!['\n'])) == list,
{
    splitting_undoes_joining(list, '\n');
    let s = join(list, seq!['\n']);
    assert forall|k: int| 0 <= k < list.len() implies without_return(#[trigger] list[k])
        == list[k] by {
        if list[k].len() > 0 {
            assert(list[k][list[k].len() - 1] != '\r');
        }
    }
    assert(lines_of(s) =~= list);
}

} // verus!
