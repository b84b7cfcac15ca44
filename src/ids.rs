//! Canonical identity and storage-relative paths of audio files.
use vstd::prelude::*;
use crate::text::{chars_of, push_char, string_from};

verus! {

pub open spec fn is_digit(c: char) -> bool {
    '0' <= c && c <= '9'
}

pub open spec fn all_digits(s: Seq<char>) -> bool {
    forall|i: int| 0 <= i < s.len() ==> is_digit(#[trigger] s[i])
}

pub open spec fn is_sep(c: char) -> bool {
    c == '/' || c == '\\'
}

/// The prefix that marks a Windows extended-length path.
pub open spec fn extended_prefix() -> Seq<char> {
    seq!['\\', '\\', '?', '\\']
}

/// The name of the notes root directory.
pub open spec fn notes_marker() -> Seq<char> {
    seq!['n', 'o', 't', 'e', 's']
}

/// The suffix that recorded file names carry after their time stamp.
pub open spec fn voice_note_suffix() -> Seq<char> {
    seq!['-', 'v', 'o', 'i', 'c', 'e', '-', 'n', 'o', 't', 'e']
}

/// The date given to time-only names when nothing better is known.
pub open spec fn default_date() -> Seq<char> {
    seq!['2', '0', '2', '5', '0', '8', '1', '0']
}

pub open spec fn matches_at(s: Seq<char>, p: Seq<char>, i: int) -> bool {
    0 <= i && i + p.len() <= s.len() && s.subrange(i, i + p.len()) == p
}

/// A path component starts at `i`.
pub open spec fn starts_component(s: Seq<char>, i: int) -> bool {
    i == 0 || (0 < i <= s.len() && is_sep(s[i - 1]))
}

/// A path component ends at `i`.
pub open spec fn ends_component(s: Seq<char>, i: int) -> bool {
    i == s.len() || (0 <= i < s.len() && is_sep(s[i]))
}

/// A component named `notes` stands at `i`.
pub open spec fn notes_component_at(s: Seq<char>, i: int) -> bool {
    matches_at(s, notes_marker(), i) && starts_component(s, i) && ends_component(s, i + 5)
}

/// The first position at or after `i` of a component named `notes`.
pub open spec fn first_notes_from(s: Seq<char>, i: int) -> Option<int>
    decreases s.len() + 1 - i,
{
    if i < 0 || i + 5 > s.len() {
        None
    } else if notes_component_at(s, i) {
        Some(i)
    } else {
        first_notes_from(s, i + 1)
    }
}

pub open spec fn four_digits_at(s: Seq<char>, i: int) -> bool {
    0 <= i && i + 4 <= s.len() && is_digit(s[i]) && is_digit(s[i + 1]) && is_digit(s[i + 2])
        && is_digit(s[i + 3])
}

/// `YYYY-MM-DD` stands at `j`.
pub open spec fn date_name_at(s: Seq<char>, j: int) -> bool {
    &&& four_digits_at(s, j)
    &&& j + 10 <= s.len()
    &&& s[j + 4] == '-'
    &&& is_digit(s[j + 5])
    &&& is_digit(s[j + 6])
    &&& s[j + 7] == '-'
    &&& is_digit(s[j + 8])
    &&& is_digit(s[j + 9])
}

/// A component `YYYY` followed by a component `YYYY-MM-DD` stands at `j`.
pub open spec fn year_segment_at(s: Seq<char>, j: int) -> bool {
    &&& starts_component(s, j)
    &&& four_digits_at(s, j)
    &&& j + 15 <= s.len()
    &&& is_sep(s[j + 4])
    &&& date_name_at(s, j + 5)
    &&& ends_component(s, j + 15)
}

/// The first position at or after `i` of a `YYYY/YYYY-MM-DD` segment.
pub open spec fn first_year_from(s: Seq<char>, i: int) -> Option<int>
    decreases s.len() + 1 - i,
{
    if i < 0 || i + 15 > s.len() {
        None
    } else if year_segment_at(s, i) {
        Some(i)
    } else {
        first_year_from(s, i + 1)
    }
}

/// `s` without the leading run of `c`.
pub open spec fn trim_start(s: Seq<char>, c: char) -> Seq<char>
    decreases s.len(),
{
    if s.len() > 0 && s[0] == c {
        trim_start(s.drop_first(), c)
    } else {
        s
    }
}

pub open spec fn forward_slashes(s: Seq<char>) -> Seq<char> {
    s.map_values(|c: char| if c == '\\' { '/' } else { c })
}

/// The index of the last separator among `s[0..n]`, or -1.
pub open spec fn last_sep_before(s: Seq<char>, n: int) -> int
    decreases n,
{
    if n <= 0 {
        -1
    } else if is_sep(s[n - 1]) {
        n - 1
    } else {
        last_sep_before(s, n - 1)
    }
}

/// The last component of a path: what follows its last separator.
pub open spec fn file_name(s: Seq<char>) -> Seq<char> {
    s.skip(last_sep_before(s, s.len() as int) + 1)
}

pub open spec fn strip_extended(s: Seq<char>) -> Seq<char> {
    if s.len() >= 4 && s.take(4) == extended_prefix() {
        s.skip(4)
    } else {
        s
    }
}

/// The storage-relative form of a path: what follows the first component
/// named `notes`, with `/` separators and no leading separator; else the
/// path from its first `YYYY/YYYY-MM-DD` segment; else the bare file name.
pub open spec fn normalized_path(p: Seq<char>) -> Seq<char> {
    let s = strip_extended(p);
    match first_notes_from(s, 0) {
        Some(i) => trim_start(forward_slashes(s.skip(i + 5)), '/'),
        None => match first_year_from(s, 0) {
            Some(j) => forward_slashes(s.skip(j)),
            None => file_name(p),
        },
    }
}

/// The index of the first `c` in `s[i..]`, or `s.len()`.
pub open spec fn first_char_from(s: Seq<char>, c: char, i: int) -> int
    decreases s.len() - i,
{
    if i < 0 || i >= s.len() {
        s.len() as int
    } else if s[i] == c {
        i
    } else {
        first_char_from(s, c, i + 1)
    }
}

/// A file name up to its first `.`.
pub open spec fn stem(f: Seq<char>) -> Seq<char> {
    f.take(first_char_from(f, '.', 0))
}

/// `s` with every occurrence of `p` taken out, left to right.
pub open spec fn remove_all(s: Seq<char>, p: Seq<char>) -> Seq<char>
    decreases s.len(),
{
    if s.len() == 0 || p.len() == 0 {
        s
    } else if matches_at(s, p, 0) {
        remove_all(s.skip(p.len() as int), p)
    } else {
        seq![s[0]].add(remove_all(s.drop_first(), p))
    }
}

/// The digits of `s`, in order.
pub open spec fn digits_of(s: Seq<char>) -> Seq<char>
    decreases s.len(),
{
    if s.len() == 0 {
        s
    } else if is_digit(s.last()) {
        digits_of(s.drop_last()).push(s.last())
    } else {
        digits_of(s.drop_last())
    }
}

/// `YYYYMMDD-HHMMSS`: two hyphen-separated parts of lengths 8 and 6.
pub open spec fn is_date_time_pair(t: Seq<char>) -> bool {
    &&& t.len() == 15
    &&& t[8] == '-'
    &&& forall|i: int| 0 <= i < 15 && i != 8 ==> t[i] != '-'
}

/// The canonical id of a file name, with `date` (eight digits) for names
/// that carry a time alone: `YYYYMMDD-HHMMSS` joined; fourteen digits kept;
/// six digits, or a first hyphen part of six digits, after the date; else
/// the first fourteen (or six, after the date) of its digits; else its stem.
pub open spec fn id_from_filename(f: Seq<char>, date: Seq<char>) -> Seq<char> {
    let base = stem(f);
    let t = remove_all(base, voice_note_suffix());
    if is_date_time_pair(t) {
        t.take(8) + t.skip(9)
    } else if t.len() == 6 && all_digits(t) {
        date + t
    } else if t.len() == 14 && all_digits(t) {
        t
    } else if first_char_from(t, '-', 0) == 6 && all_digits(t.take(6)) {
        date + t.take(6)
    } else {
        let d = digits_of(t);
        if d.len() >= 14 {
            d.take(14)
        } else if d.len() >= 6 {
            date + d.take(6)
        } else {
            base
        }
    }
}

/// The date `YYYYMMDD` named by a directory `YYYY-MM-DD`.
pub open spec fn date_of_dir(d: Seq<char>) -> Option<Seq<char>> {
    if d.len() == 10 && d[4] == '-' && d[7] == '-' && all_digits(d.take(4)) && all_digits(
        d.subrange(5, 7),
    ) && all_digits(d.subrange(8, 10)) {
        Some(d.take(4) + d.subrange(5, 7) + d.subrange(8, 10))
    } else {
        None
    }
}

pub(crate) fn is_digit_exec(c: char) -> (r: bool)
    ensures
        r == is_digit(c),
{
    '0' <= c && c <= '9'
}

/// Whether `p` occurs in `v` at `i`.
pub(crate) fn matches_at_exec(v: &Vec<char>, p: &Vec<char>, i: usize) -> (r: bool)
    ensures
        r == matches_at(v@, p@, i as int),
{
    if i > v.len() || p.len() > v.len() - i {
        return false;
    }
    let n = v.len();
    let mut k: usize = 0;
    while k < p.len()
        invariant
            n == v@.len(),
            i + p@.len() <= v@.len(),
            k <= p@.len(),
            forall|j: int| 0 <= j < k ==> v@[i + j] == p@[j],
        decreases p@.len() - k,
    {
        if v[i + k] != p[k] {
            assert(v@.subrange(i as int, i + p@.len())[k as int] != p@[k as int]);
            return false;
        }
        k = k + 1;
    }
    assert(v@.subrange(i as int, i + p@.len()) =~= p@);
    true
}

fn is_sep_exec(c: char) -> (r: bool)
    ensures
        r == is_sep(c),
{
    c == '/' || c == '\\'
}

fn notes_component_exec(v: &Vec<char>, marker: &Vec<char>, i: usize) -> (r: bool)
    requires
        marker@ == notes_marker(),
    ensures
        r == notes_component_at(v@, i as int),
{
    if !matches_at_exec(v, marker, i) {
        return false;
    }
    let n = v.len();
    let start = i == 0 || is_sep_exec(v[i - 1]);
    let end = i + 5 == n || is_sep_exec(v[i + 5]);
    start && end
}

fn find_notes(v: &Vec<char>) -> (r: Option<usize>)
    ensures
        r is None <==> first_notes_from(v@, 0) is None,
        r matches Some(k) ==> first_notes_from(v@, 0) == Some(k as int),
{
    let marker = notes_marker_vec();
    if v.len() < 5 {
        return None;
    }
    let mut i: usize = 0;
    while i <= v.len() - 5
        invariant
            marker@ == notes_marker(),
            5 <= v@.len(),
            i <= v@.len(),
            first_notes_from(v@, 0) == first_notes_from(v@, i as int),
        decreases v@.len() + 1 - i,
    {
        if notes_component_exec(v, &marker, i) {
            return Some(i);
        }
        i = i + 1;
    }
    None
}

fn year_segment_exec(v: &Vec<char>, j: usize) -> (r: bool)
    requires
        j + 15 <= v@.len(),
    ensures
        r == year_segment_at(v@, j as int),
{
    let n = v.len();
    let start = j == 0 || is_sep_exec(v[j - 1]);
    let end = j + 15 == n || is_sep_exec(v[j + 15]);
    start && end && is_digit_exec(v[j]) && is_digit_exec(v[j + 1]) && is_digit_exec(v[j + 2])
        && is_digit_exec(v[j + 3]) && is_sep_exec(v[j + 4]) && is_digit_exec(v[j + 5])
        && is_digit_exec(v[j + 6]) && is_digit_exec(v[j + 7]) && is_digit_exec(v[j + 8])
        && v[j + 9] == '-' && is_digit_exec(v[j + 10]) && is_digit_exec(v[j + 11]) && v[j + 12]
        == '-' && is_digit_exec(v[j + 13]) && is_digit_exec(v[j + 14])
}

fn find_year(v: &Vec<char>) -> (r: Option<usize>)
    ensures
        r is None <==> first_year_from(v@, 0) is None,
        r matches Some(k) ==> first_year_from(v@, 0) == Some(k as int),
{
    if v.len() < 15 {
        return None;
    }
    let mut i: usize = 0;
    while i <= v.len() - 15
        invariant
            15 <= v@.len(),
            i <= v@.len(),
            first_year_from(v@, 0) == first_year_from(v@, i as int),
        decreases v@.len() + 1 - i,
    {
        if year_segment_exec(v, i) {
            return Some(i);
        }
        i = i + 1;
    }
    None
}

proof fn lemma_first_notes_found(s: Seq<char>, k: int)
    ensures
        first_notes_from(s, k) matches Some(i) ==> 0 <= i && i + 5 <= s.len(),
    decreases s.len() + 1 - k,
{
    if 0 <= k && k + 5 <= s.len() && !notes_component_at(s, k) {
        lemma_first_notes_found(s, k + 1);
    }
}

proof fn lemma_first_year_found(s: Seq<char>, k: int)
    ensures
        first_year_from(s, k) matches Some(i) ==> 0 <= i && i + 15 <= s.len(),
    decreases s.len() + 1 - k,
{
    if 0 <= k && k + 15 <= s.len() && !year_segment_at(s, k) {
        lemma_first_year_found(s, k + 1);
    }
}

/// Leading separators of either kind all become leading `/`s.
proof fn lemma_trim_sep_step(s: Seq<char>, j: int)
    requires
        0 <= j < s.len(),
        is_sep(s[j]),
    ensures
        trim_start(forward_slashes(s.skip(j)), '/') == trim_start(forward_slashes(s.skip(j + 1)), '/'),
{
    let a = forward_slashes(s.skip(j));
    assert(a[0] == '/');
    assert(a.drop_first() =~= forward_slashes(s.skip(j + 1)));
}

/// The first index at or after `from` that is not a separator.
fn skip_separators(v: &Vec<char>, from: usize) -> (r: usize)
    requires
        from <= v@.len(),
    ensures
        from <= r <= v@.len(),
        trim_start(forward_slashes(v@.skip(from as int)), '/') == forward_slashes(v@.skip(r as int)),
{
    let mut i: usize = from;
    while i < v.len() && is_sep_exec(v[i])
        invariant
            from <= i <= v@.len(),
            trim_start(forward_slashes(v@.skip(from as int)), '/') == trim_start(
                forward_slashes(v@.skip(i as int)),
                '/',
            ),
        decreases v@.len() - i,
    {
        proof {
            lemma_trim_sep_step(v@, i as int);
        }
        i = i + 1;
    }
    proof {
        let a = forward_slashes(v@.skip(i as int));
        if a.len() > 0 {
            assert(a[0] == v@[i as int]);
        }
    }
    i
}

/// Appends `v[from..]` to `s` with every `\` turned into `/`.
fn push_forward_slashes(s: &mut String, v: &Vec<char>, from: usize)
    requires
        from <= v@.len(),
    ensures
        final(s)@ == old(s)@ + forward_slashes(v@.skip(from as int)),
{
    let ghost start = s@;
    let mut i: usize = from;
    while i < v.len()
        invariant
            from <= i <= v@.len(),
            s@ == start + forward_slashes(v@.subrange(from as int, i as int)),
        decreases v@.len() - i,
    {
        let c = v[i];
        if c == '\\' {
            push_char(s, '/');
        } else {
            push_char(s, c);
        }
        i = i + 1;
        assert(forward_slashes(v@.subrange(from as int, i as int)) =~= forward_slashes(
            v@.subrange(from as int, i - 1),
        ).push(if c == '\\' { '/' } else { c }));
    }
    assert(v@.subrange(from as int, i as int) =~= v@.skip(from as int));
}

/// The index just after the last separator of `v`.
pub(crate) fn file_name_start(v: &Vec<char>) -> (r: usize)
    ensures
        r as int == last_sep_before(v@, v@.len() as int) + 1,
        r <= v@.len(),
{
    let mut j: usize = v.len();
    while j > 0 && !(v[j - 1] == '/' || v[j - 1] == '\\')
        invariant
            j <= v@.len(),
            last_sep_before(v@, v@.len() as int) == last_sep_before(v@, j as int),
        decreases j,
    {
        j = j - 1;
    }
    j
}

fn extended_prefix_vec() -> (r: Vec<char>)
    ensures
        r@ == extended_prefix(),
{
    let r = vec!['\\', '\\', '?', '\\'];
    assert(r@ =~= extended_prefix());
    r
}

fn notes_marker_vec() -> (r: Vec<char>)
    ensures
        r@ == notes_marker(),
{
    let r = vec!['n', 'o', 't', 'e', 's'];
    assert(r@ =~= notes_marker());
    r
}

/// The tail of a path from its first `YYYY/YYYY-MM-DD` segment, with `/`
/// separators.
pub fn extract_date_path(path: &str) -> (r: Option<String>)
    ensures
        match first_year_from(path@, 0) {
            Some(j) => r matches Some(x) && x@ == forward_slashes(path@.skip(j)),
            None => r is None,
        },
{
    let v = chars_of(path);
    proof {
        lemma_first_year_found(v@, 0);
    }
    match find_year(&v) {
        Some(j) => {
            let mut out = String::new();
            push_forward_slashes(&mut out, &v, j);
            assert(out@ =~= forward_slashes(v@.skip(j as int)));
            Some(out)
        },
        None => None,
    }
}

/// Storage-relative, forward-slash form of an audio file's path, so that
/// every spelling of one file's path gives one string.
pub fn normalize_audio_path(path: &str) -> (r: String)
    ensures
        r@ == normalized_path(path@),
{
    let p = chars_of(path);
    let pre = extended_prefix_vec();
    let start: usize = if matches_at_exec(&p, &pre, 0) {
        4
    } else {
        0
    };
    proof {
        if start == 4 {
            assert(p@.subrange(0, 4) =~= p@.take(4));
        } else {
            assert(!(p@.len() >= 4 && p@.take(4) == extended_prefix())) by {
                if p@.len() >= 4 && p@.take(4) == extended_prefix() {
                    assert(p@.subrange(0, 4) =~= p@.take(4));
                }
            }
        }
    }
    let s: Vec<char> = if start == 4 {
        chars_of(string_from(&p, 4).as_str())
    } else {
        p.clone()
    };
    assert(s@ == strip_extended(p@));
    proof {
        lemma_first_notes_found(s@, 0);
        lemma_first_year_found(s@, 0);
    }
    match find_notes(&s) {
        Some(i) => {
            let b = skip_separators(&s, i + 5);
            let mut out = String::new();
            push_forward_slashes(&mut out, &s, b);
            assert(out@ =~= forward_slashes(s@.skip(b as int)));
            out
        },
        None => {
            let whole = string_from(&s, 0);
            assert(s@.skip(0) =~= s@);
            match extract_date_path(whole.as_str()) {
                Some(out) => out,
                None => {
                    let k = file_name_start(&p);
                    string_from(&p, k)
                },
            }
        },
    }
}

pub(crate) fn first_char_exec(v: &Vec<char>, c: char) -> (r: usize)
    ensures
        r as int == first_char_from(v@, c, 0),
        r <= v@.len(),
{
    let mut i: usize = 0;
    while i < v.len() && v[i] != c
        invariant
            i <= v@.len(),
            first_char_from(v@, c, 0) == first_char_from(v@, c, i as int),
        decreases v@.len() - i,
    {
        i = i + 1;
    }
    i
}

fn voice_note_suffix_vec() -> (r: Vec<char>)
    ensures
        r@ == voice_note_suffix(),
{
    let r = vec!['-', 'v', 'o', 'i', 'c', 'e', '-', 'n', 'o', 't', 'e'];
    assert(r@ =~= voice_note_suffix());
    r
}

/// `v` with every occurrence of `p` taken out.
fn remove_all_exec(v: &Vec<char>, p: &Vec<char>) -> (r: Vec<char>)
    requires
        p@.len() > 0,
    ensures
        r@ == remove_all(v@, p@),
{
    let mut out: Vec<char> = Vec::new();
    let mut i: usize = 0;
    assert(v@.skip(0) =~= v@);
    assert(out@ + remove_all(v@, p@) =~= remove_all(v@, p@));
    while i < v.len()
        invariant
            p@.len() > 0,
            i <= v@.len(),
            out@ + remove_all(v@.skip(i as int), p@) == remove_all(v@, p@),
        decreases v@.len() - i,
    {
        let ghost rest = v@.skip(i as int);
        if matches_at_exec(v, p, i) {
            proof {
                assert(rest.subrange(0, p@.len() as int) =~= v@.subrange(i as int, i + p@.len()));
                assert(rest.skip(p@.len() as int) =~= v@.skip(i + p@.len()));
            }
            i = i + p.len();
        } else {
            proof {
                assert(rest.len() > 0);
                if matches_at(rest, p@, 0) {
                    assert(rest.subrange(0, p@.len() as int) =~= v@.subrange(
                        i as int,
                        i + p@.len(),
                    ));
                }
                assert(rest.drop_first() =~= v@.skip(i + 1));
                assert(out@.push(v@[i as int]) + remove_all(v@.skip(i + 1), p@) =~= out@ + (seq![
                    rest[0],
                ].add(remove_all(rest.drop_first(), p@))));
            }
            out.push(v[i]);
            i = i + 1;
        }
    }
    assert(v@.skip(i as int) =~= Seq::<char>::empty());
    assert(out@ + Seq::<char>::empty() =~= out@);
    out
}

pub(crate) fn all_digits_exec(v: &Vec<char>) -> (r: bool)
    ensures
        r == all_digits(v@),
{
    let mut i: usize = 0;
    while i < v.len()
        invariant
            i <= v@.len(),
            forall|j: int| 0 <= j < i ==> is_digit(#[trigger] v@[j]),
        decreases v@.len() - i,
    {
        if !is_digit_exec(v[i]) {
            return false;
        }
        i = i + 1;
    }
    true
}

fn is_date_time_pair_exec(v: &Vec<char>) -> (r: bool)
    ensures
        r == is_date_time_pair(v@),
{
    if v.len() != 15 || v[8] != '-' {
        return false;
    }
    let mut i: usize = 0;
    while i < 15
        invariant
            v@.len() == 15,
            i <= 15,
            forall|j: int| 0 <= j < i && j != 8 ==> v@[j] != '-',
        decreases 15 - i,
    {
        if i != 8 && v[i] == '-' {
            return false;
        }
        i = i + 1;
    }
    true
}

fn digits_exec(v: &Vec<char>) -> (r: Vec<char>)
    ensures
        r@ == digits_of(v@),
{
    let mut d: Vec<char> = Vec::new();
    let mut i: usize = 0;
    while i < v.len()
        invariant
            i <= v@.len(),
            d@ == digits_of(v@.take(i as int)),
        decreases v@.len() - i,
    {
        proof {
            let t = v@.take(i + 1);
            assert(t.drop_last() =~= v@.take(i as int));
            assert(t.last() == v@[i as int]);
        }
        if is_digit_exec(v[i]) {
            d.push(v[i]);
        }
        i = i + 1;
    }
    assert(v@.take(i as int) =~= v@);
    d
}

/// Appends all of `w` to `out`.
pub(crate) fn extend(out: &mut Vec<char>, w: &Vec<char>, from: usize, to: usize)
    requires
        from <= to <= w@.len(),
    ensures
        final(out)@ == old(out)@ + w@.subrange(from as int, to as int),
{
    let ghost start = out@;
    let mut i: usize = from;
    while i < to
        invariant
            from <= i <= to <= w@.len(),
            out@ == start + w@.subrange(from as int, i as int),
        decreases to - i,
    {
        out.push(w[i]);
        i = i + 1;
        assert(out@ =~= start + w@.subrange(from as int, i as int));
    }
}

/// The first six characters of `t`.
fn first_six(t: &Vec<char>) -> (r: Vec<char>)
    requires
        t@.len() >= 6,
    ensures
        r@ == t@.take(6),
{
    let mut r: Vec<char> = Vec::new();
    extend(&mut r, t, 0, 6);
    assert(r@ =~= t@.take(6));
    r
}

/// The id of a file name, with `date` standing for a missing date.
fn id_with_date(filename: &str, date: &Vec<char>) -> (r: String)
    ensures
        r@ == id_from_filename(filename@, date@),
{
    let f = chars_of(filename);
    let dot = first_char_exec(&f, '.');
    let mut base: Vec<char> = Vec::new();
    extend(&mut base, &f, 0, dot);
    assert(base@ =~= stem(f@));
    let suffix = voice_note_suffix_vec();
    let t = remove_all_exec(&base, &suffix);
    let mut out: Vec<char> = Vec::new();
    if is_date_time_pair_exec(&t) {
        extend(&mut out, &t, 0, 8);
        extend(&mut out, &t, 9, 15);
        assert(out@ =~= t@.take(8) + t@.skip(9));
        return string_from(&out, 0);
    }
    let digits = all_digits_exec(&t);
    if t.len() == 6 && digits {
        extend(&mut out, date, 0, date.len());
        extend(&mut out, &t, 0, 6);
        assert(out@ =~= date@ + t@);
    } else if t.len() == 14 && digits {
        extend(&mut out, &t, 0, 14);
        assert(out@ =~= t@);
    } else if first_char_exec(&t, '-') == 6 && all_digits_exec(&first_six(&t)) {
        extend(&mut out, date, 0, date.len());
        extend(&mut out, &t, 0, 6);
        assert(out@ =~= date@ + t@.take(6));
    } else {
        let d = digits_exec(&t);
        if d.len() >= 14 {
            extend(&mut out, &d, 0, 14);
            assert(out@ =~= d@.take(14));
        } else if d.len() >= 6 {
            extend(&mut out, date, 0, date.len());
            extend(&mut out, &d, 0, 6);
            assert(out@ =~= date@ + d@.take(6));
        } else {
            extend(&mut out, &base, 0, base.len());
            assert(out@ =~= base@);
        }
    }
    assert(out@.skip(0) =~= out@);
    string_from(&out, 0)
}

fn default_date_vec() -> (r: Vec<char>)
    ensures
        r@ == default_date(),
{
    let r = vec!['2', '0', '2', '5', '0', '8', '1', '0'];
    assert(r@ =~= default_date());
    r
}

/// The canonical id (`YYYYMMDDHHMMSS`) of a file name; a name that carries
/// a time alone gets the default date.
pub fn generate_id_from_filename(filename: &str) -> (r: String)
    ensures
        r@ == id_from_filename(filename@, default_date()),
{
    let date = default_date_vec();
    id_with_date(filename, &date)
}

/// The date `YYYYMMDD` that a directory named `YYYY-MM-DD` stands for.
pub fn date_from_dir(dir: &str) -> (r: Option<String>)
    ensures
        match date_of_dir(dir@) {
            Some(d) => r matches Some(x) && x@ == d,
            None => r is None,
        },
{
    let d = chars_of(dir);
    if d.len() != 10 || d[4] != '-' || d[7] != '-' {
        return None;
    }
    let mut out: Vec<char> = Vec::new();
    extend(&mut out, &d, 0, 4);
    let y = all_digits_exec(&out);
    assert(out@ =~= d@.take(4));
    let mut m: Vec<char> = Vec::new();
    extend(&mut m, &d, 5, 7);
    let mo = all_digits_exec(&m);
    let mut dd: Vec<char> = Vec::new();
    extend(&mut dd, &d, 8, 10);
    let da = all_digits_exec(&dd);
    if !(y && mo && da) {
        return None;
    }
    extend(&mut out, &d, 5, 7);
    extend(&mut out, &d, 8, 10);
    Some(string_from(&out, 0))
}

/// The canonical id of a file name found in directory `dir`: a name that
/// carries a time alone takes its date from a `YYYY-MM-DD` directory, and
/// the default date only where the directory names none.
pub fn derive_id(filename: &str, dir: &str) -> (r: String)
    ensures
        r@ == id_from_filename(
            filename@,
            match date_of_dir(dir@) {
                Some(d) => d,
                None => default_date(),
            },
        ),
{
    match date_from_dir(dir) {
        Some(d) => {
            let v = chars_of(d.as_str());
            id_with_date(filename, &v)
        },
        None => {
            let v = default_date_vec();
            id_with_date(filename, &v)
        },
    }
}

pub(crate) proof fn lemma_last_sep_range(s: Seq<char>, n: int)
    requires
        0 <= n <= s.len(),
    ensures
        -1 <= last_sep_before(s, n) < n,
    decreases n,
{
    if n > 0 {
        lemma_last_sep_range(s, n - 1);
    }
}

proof fn lemma_last_sep_prefix(a: Seq<char>, c: Seq<char>, n: int)
    requires
        0 <= n <= a.len(),
        n <= c.len(),
        forall|i: int| 0 <= i < n ==> a[i] == c[i],
    ensures
        last_sep_before(a, n) == last_sep_before(c, n),
    decreases n,
{
    if n > 0 {
        lemma_last_sep_prefix(a, c, n - 1);
    }
}

proof fn lemma_last_sep_concat(a: Seq<char>, b: Seq<char>, n: int)
    requires
        0 <= n <= b.len(),
    ensures
        last_sep_before(a + b, a.len() + n) == if last_sep_before(b, n) >= 0 {
            a.len() + last_sep_before(b, n)
        } else {
            last_sep_before(a, a.len() as int)
        },
    decreases n,
{
    if n > 0 {
        assert((a + b)[a.len() + n - 1] == b[n - 1]);
        if !is_sep(b[n - 1]) {
            lemma_last_sep_concat(a, b, n - 1);
        }
    } else {
        lemma_last_sep_prefix(a, a + b, a.len() as int);
    }
}

/// A path and its extended-length spelling (`\\?\` in front) normalize to
/// the same string.
pub proof fn lemma_extended_prefix_ignored(p: Seq<char>)
    requires
        !(p.len() >= 4 && p.take(4) == extended_prefix()),
    ensures
        normalized_path(extended_prefix() + p) == normalized_path(p),
{
    let e = extended_prefix();
    let q = e + p;
    assert(q.take(4) =~= e);
    assert(q.skip(4) =~= p);
    assert(strip_extended(q) == p);
    lemma_last_sep_concat(e, p, p.len() as int);
    assert(last_sep_before(e, 4) == 3) by {
        assert(is_sep(e[3]));
    }
    let ls = last_sep_before(p, p.len() as int);
    lemma_last_sep_range(p, p.len() as int);
    if ls >= 0 {
        assert(q.skip(4 + ls + 1) =~= p.skip(ls + 1));
    } else {
        assert(p.skip(0) =~= p);
    }
}

} // verus!
