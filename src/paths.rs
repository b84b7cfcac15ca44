//! What the reconciler reads off an audio file's path: its id, its text
//! file, whether it is audio at all, and the time its name records.
use vstd::prelude::*;
use crate::ids::{
    all_digits, all_digits_exec, date_from_dir, date_of_dir, default_date, derive_id, extend,
    file_name, first_char_exec, lemma_last_sep_range,
    file_name_start, first_char_from, id_from_filename, is_digit, last_sep_before,
    matches_at_exec,
};
use crate::text::{chars_of, push_char, push_range, string_from};

verus! {

/// The path of the directory that holds `p`: everything before its last
/// separator.
pub open spec fn dir_part(p: Seq<char>) -> Seq<char> {
    let ls = last_sep_before(p, p.len() as int);
    if ls < 0 {
        Seq::empty()
    } else {
        p.take(ls)
    }
}

/// The name of the directory that holds `p`.
pub open spec fn dir_name(p: Seq<char>) -> Seq<char> {
    file_name(dir_part(p))
}

/// The date that the file's directory names, or the default date.
pub open spec fn date_for(p: Seq<char>) -> Seq<char> {
    match date_of_dir(dir_name(p)) {
        Some(d) => d,
        None => default_date(),
    }
}

/// The canonical id of the audio file at `p`.
pub open spec fn file_id(p: Seq<char>) -> Seq<char> {
    id_from_filename(file_name(p), date_for(p))
}

/// The index of the last `c` among `s[0..n]`, or -1.
pub open spec fn last_char_before(s: Seq<char>, c: char, n: int) -> int
    decreases n,
{
    if n <= 0 {
        -1
    } else if s[n - 1] == c {
        n - 1
    } else {
        last_char_before(s, c, n - 1)
    }
}

/// Where the extension's dot stands in a file name, or -1 when the name has
/// no extension (no dot, or a single leading one).
pub open spec fn ext_dot(name: Seq<char>) -> int {
    let d = last_char_before(name, '.', name.len() as int);
    if d > 0 {
        d
    } else {
        -1
    }
}

/// The extension of the file at `p`, without its dot.
pub open spec fn extension(p: Seq<char>) -> Seq<char> {
    let name = file_name(p);
    let d = ext_dot(name);
    if d > 0 {
        name.skip(d + 1)
    } else {
        Seq::empty()
    }
}

pub open spec fn txt_ext() -> Seq<char> {
    seq!['.', 't', 'x', 't']
}

/// The path of the text file that goes with the audio file at `p`: its
/// extension replaced by `txt`, or `.txt` appended where it has none.
pub open spec fn text_path_of(p: Seq<char>) -> Seq<char> {
    let name = file_name(p);
    let d = ext_dot(name);
    if d > 0 {
        p.take(p.len() - name.len() + d) + txt_ext()
    } else {
        p + txt_ext()
    }
}

/// The extensions of audio files.
pub open spec fn is_audio_ext(e: Seq<char>) -> bool {
    e == seq!['w', 'a', 'v'] || e == seq!['m', 'p', '3'] || e == seq!['m', '4', 'a'] || e
        == seq!['o', 'g', 'g']
}

/// The value of a run of decimal digits.
pub open spec fn num_of(s: Seq<char>) -> int
    decreases s.len(),
{
    if s.len() == 0 {
        0
    } else {
        num_of(s.drop_last()) * 10 + (s.last() as int - '0' as int)
    }
}

pub open spec fn is_leap(y: int) -> bool {
    y % 4 == 0 && (y % 100 != 0 || y % 400 == 0)
}

pub open spec fn days_in_month(y: int, m: int) -> int {
    if m == 2 {
        if is_leap(y) {
            29
        } else {
            28
        }
    } else if m == 4 || m == 6 || m == 9 || m == 11 {
        30
    } else {
        31
    }
}

/// A date and time of the proleptic Gregorian calendar, leap seconds aside.
pub open spec fn valid_date_time(y: int, mo: int, d: int, h: int, mi: int, s: int) -> bool {
    &&& 1 <= mo <= 12
    &&& 1 <= d <= days_in_month(y, mo)
    &&& 0 <= h < 24
    &&& 0 <= mi < 60
    &&& 0 <= s < 60
}

/// Days from 1970-01-01 to a date of the proleptic Gregorian calendar.
pub open spec fn days_from_civil(y: int, m: int, d: int) -> int {
    let y1 = if m <= 2 {
        y - 1
    } else {
        y
    };
    let era = y1 / 400;
    let yoe = y1 - era * 400;
    let mp = (m + 9) % 12;
    let doy = (153 * mp + 2) / 5 + d - 1;
    let doe = yoe * 365 + yoe / 4 - yoe / 100 + doy;
    era * 146097 + doe - 719468
}

/// Seconds since the Unix epoch of a UTC date and time, leap seconds aside.
pub open spec fn utc_seconds(y: int, mo: int, d: int, h: int, mi: int, s: int) -> int {
    days_from_civil(y, mo, d) * 86400 + h * 3600 + mi * 60 + s
}

/// Relies on chrono's `NaiveDate::from_ymd_opt` and `NaiveDate::and_hms_opt`,
/// which give `None` exactly for an impossible date or time, and on
/// `NaiveDateTime::and_utc().timestamp()`, the non-leap seconds since
/// 1970-01-01 00:00:00 UTC.
#[verifier::external_body]
fn utc_timestamp(y: i32, mo: u32, d: u32, h: u32, mi: u32, s: u32) -> (r: Option<i64>)
    requires
        0 <= y <= 9999,
    ensures
        r is Some <==> valid_date_time(y as int, mo as int, d as int, h as int, mi as int, s as int),
        r matches Some(t) ==> t == utc_seconds(
            y as int,
            mo as int,
            d as int,
            h as int,
            mi as int,
            s as int,
        ),
{
    let date = chrono::NaiveDate::from_ymd_opt(y, mo, d)?;
    let time = date.and_hms_opt(h, mi, s)?;
    Some(time.and_utc().timestamp())
}

/// The `HHMMSS` that a file name starts with, up to its first `-` or `.`.
pub open spec fn time_part(p: Seq<char>) -> Seq<char> {
    let name = file_name(p);
    let base = name.take(first_char_from(name, '.', 0));
    base.take(first_char_from(base, '-', 0))
}

/// The time that the `YYYY-MM-DD/HHMMSS...` convention of a path records.
pub open spec fn path_timestamp(p: Seq<char>) -> Option<int> {
    let t = time_part(p);
    match date_of_dir(dir_name(p)) {
        Some(d) => if t.len() == 6 && all_digits(t) && valid_date_time(
            num_of(d.take(4)),
            num_of(d.subrange(4, 6)),
            num_of(d.subrange(6, 8)),
            num_of(t.take(2)),
            num_of(t.subrange(2, 4)),
            num_of(t.subrange(4, 6)),
        ) {
            Some(
                utc_seconds(
                    num_of(d.take(4)),
                    num_of(d.subrange(4, 6)),
                    num_of(d.subrange(6, 8)),
                    num_of(t.take(2)),
                    num_of(t.subrange(2, 4)),
                    num_of(t.subrange(4, 6)),
                ),
            )
        } else {
            None
        },
        None => None,
    }
}

/// The best creation time of a file: its modified time, else its created
/// time, else the time its path records, else `now`.
pub open spec fn best_timestamp(
    modified: Option<i64>,
    created: Option<i64>,
    from_path: Option<int>,
    now: i64,
) -> int {
    match modified {
        Some(m) => m as int,
        None => match created {
            Some(c) => c as int,
            None => match from_path {
                Some(t) => t,
                None => now as int,
            },
        },
    }
}

/// The characters `v[from..to]` as a new vector.
pub(crate) fn sub_vec(v: &Vec<char>, from: usize, to: usize) -> (r: Vec<char>)
    requires
        from <= to <= v@.len(),
    ensures
        r@ == v@.subrange(from as int, to as int),
{
    let mut r: Vec<char> = Vec::new();
    extend(&mut r, v, from, to);
    assert(r@ =~= v@.subrange(from as int, to as int));
    r
}

/// The index of the last `c` in `v`, or -1.
fn last_char_exec(v: &Vec<char>, c: char) -> (r: Option<usize>)
    ensures
        match r {
            Some(d) => d as int == last_char_before(v@, c, v@.len() as int),
            None => last_char_before(v@, c, v@.len() as int) == -1,
        },
        r matches Some(d) ==> d < v@.len(),
{
    let mut j: usize = v.len();
    while j > 0 && v[j - 1] != c
        invariant
            j <= v@.len(),
            last_char_before(v@, c, v@.len() as int) == last_char_before(v@, c, j as int),
        decreases j,
    {
        j = j - 1;
    }
    if j == 0 {
        None
    } else {
        Some(j - 1)
    }
}

/// Where the name of the directory holding `p` starts and ends in `p`.
fn dir_name_bounds(p: &Vec<char>) -> (r: (usize, usize))
    ensures
        r.0 <= r.1 <= p@.len(),
        p@.subrange(r.0 as int, r.1 as int) == dir_name(p@),
{
    let s0 = file_name_start(p);
    proof {
        lemma_last_sep_range(p@, p@.len() as int);
    }
    if s0 == 0 {
        assert(dir_part(p@) =~= Seq::<char>::empty());
        assert(file_name(Seq::<char>::empty()) =~= Seq::<char>::empty());
        return (0, 0);
    }
    let d = sub_vec(p, 0, s0 - 1);
    assert(d@ =~= dir_part(p@));
    let ds = file_name_start(&d);
    assert(p@.subrange(ds as int, (s0 - 1) as int) =~= d@.skip(ds as int));
    (ds, s0 - 1)
}

/// The canonical id of the audio file at `path`.
pub fn file_id_of(path: &str) -> (r: String)
    ensures
        r@ == file_id(path@),
{
    let p = chars_of(path);
    let s0 = file_name_start(&p);
    let name = string_from(&p, s0);
    let (a, b) = dir_name_bounds(&p);
    let dir = sub_vec(&p, a, b);
    let dir_s = string_from(&dir, 0);
    assert(dir@.skip(0) =~= dir@);
    derive_id(name.as_str(), dir_s.as_str())
}

/// Where the extension's dot of the file at `p` stands in `p`, if it has one.
pub(crate) fn ext_dot_exec(p: &Vec<char>) -> (r: Option<usize>)
    ensures
        ({
            let name = file_name(p@);
            let s0 = p@.len() - name.len();
            &&& ext_dot(name) > 0 ==> r is Some && r->0 as int == s0 + ext_dot(name)
            &&& ext_dot(name) <= 0 ==> r is None
            &&& 0 <= s0 <= p@.len()
        }),
        r matches Some(k) ==> k < p@.len(),
{
    let s0 = file_name_start(p);
    proof {
        lemma_last_sep_range(p@, p@.len() as int);
    }
    let name = sub_vec(p, s0, p.len());
    assert(name@ =~= file_name(p@));
    match last_char_exec(&name, '.') {
        Some(d) => if d > 0 {
            Some(s0 + d)
        } else {
            None
        },
        None => None,
    }
}

/// The path of the text file that goes with the audio file at `path`.
pub fn text_path_for(path: &str) -> (r: String)
    ensures
        r@ == text_path_of(path@),
{
    let p = chars_of(path);
    let mut out = String::new();
    match ext_dot_exec(&p) {
        Some(k) => {
            push_range(&mut out, &p, 0, k);
            assert(p@.subrange(0, k as int) =~= p@.take(k as int));
        },
        None => {
            push_range(&mut out, &p, 0, p.len());
            assert(p@.subrange(0, p@.len() as int) =~= p@);
        },
    }
    let ghost base = out@;
    push_char(&mut out, '.');
    push_char(&mut out, 't');
    push_char(&mut out, 'x');
    push_char(&mut out, 't');
    assert(out@ =~= base + txt_ext());
    assert(out@ =~= text_path_of(path@));
    out
}

fn lit3(a: char, b: char, c: char) -> (r: Vec<char>)
    ensures
        r@ == seq![a, b, c],
{
    let r = vec![a, b, c];
    assert(r@ =~= seq![a, b, c]);
    r
}

/// Whether the file at `path` has an audio extension (`wav`, `mp3`, `m4a`
/// or `ogg`).
pub fn is_audio_file(path: &str) -> (r: bool)
    ensures
        r == is_audio_ext(extension(path@)),
{
    let p = chars_of(path);
    let n = p.len();
    proof {
        lemma_last_sep_range(p@, p@.len() as int);
    }
    match ext_dot_exec(&p) {
        None => {
            assert(extension(p@).len() == 0);
            false
        },
        Some(k) => {
            let e = sub_vec(&p, k + 1, n);
            proof {
                let name = file_name(p@);
                assert(name =~= p@.skip(p@.len() - name.len()));
                assert(e@ =~= extension(p@));
            }
            if e.len() != 3 {
                return false;
            }
            let wav = lit3('w', 'a', 'v');
            let mp3 = lit3('m', 'p', '3');
            let m4a = lit3('m', '4', 'a');
            let ogg = lit3('o', 'g', 'g');
            let r = matches_at_exec(&e, &wav, 0) || matches_at_exec(&e, &mp3, 0)
                || matches_at_exec(&e, &m4a, 0) || matches_at_exec(&e, &ogg, 0);
            proof {
                assert(e@.subrange(0, 3) =~= e@);
            }
            r
        },
    }
}

pub open spec fn pow10(n: nat) -> int
    decreases n,
{
    if n == 0 {
        1
    } else {
        10 * pow10((n - 1) as nat)
    }
}

/// The value of the digits `v[from..to]`, at most four of them.
fn num_exec(v: &Vec<char>, from: usize, to: usize) -> (r: u32)
    requires
        from <= to <= v@.len(),
        to - from <= 4,
        all_digits(v@.subrange(from as int, to as int)),
    ensures
        r as int == num_of(v@.subrange(from as int, to as int)),
        r < 10000,
{
    let mut acc: u32 = 0;
    let mut i: usize = from;
    while i < to
        invariant
            from <= i <= to <= v@.len(),
            to - from <= 4,
            all_digits(v@.subrange(from as int, to as int)),
            acc as int == num_of(v@.subrange(from as int, i as int)),
            acc < pow10((i - from) as nat),
            pow10((i - from) as nat) <= 10000,
        decreases to - i,
    {
        let c = v[i];
        assert(v@.subrange(from as int, to as int)[i - from] == c);
        let d = (c as u32) - ('0' as u32);
        proof {
            let s = v@.subrange(from as int, i + 1);
            assert(s.drop_last() =~= v@.subrange(from as int, i as int));
            assert(s.last() == c);
            let k = (i - from) as nat;
            assert(pow10(k + 1) == 10 * pow10(k));
            assert(acc * 10 + d < 10 * pow10(k)) by (nonlinear_arith)
                requires
                    acc < pow10(k),
                    d <= 9,
            ;
            assert(k + 1 <= 4);
            assert(pow10(0) == 1);
            assert(pow10(1) == 10);
            assert(pow10(2) == 100);
            assert(pow10(3) == 1000);
            assert(pow10(4) == 10000);
        }
        acc = acc * 10 + d;
        i = i + 1;
    }
    acc
}

/// The time that the `YYYY-MM-DD/HHMMSS...` convention of `path` records.
pub fn path_timestamp_of(path: &str) -> (r: Option<i64>)
    ensures
        r is Some <==> path_timestamp(path@) is Some,
        r matches Some(t) ==> path_timestamp(path@) == Some(t as int),
{
    let p = chars_of(path);
    let (a, b) = dir_name_bounds(&p);
    let dir = string_from(&sub_vec(&p, a, b), 0);
    assert(dir@ =~= dir_name(p@));
    let date = match date_from_dir(dir.as_str()) {
        Some(d) => chars_of(d.as_str()),
        None => {
            return None;
        },
    };
    let s0 = file_name_start(&p);
    let name = sub_vec(&p, s0, p.len());
    assert(name@ =~= file_name(p@));
    let dot = first_char_exec(&name, '.');
    let base = sub_vec(&name, 0, dot);
    assert(base@ =~= name@.take(dot as int));
    let dash = first_char_exec(&base, '-');
    let t = sub_vec(&base, 0, dash);
    assert(t@ =~= time_part(p@));
    if t.len() != 6 || !all_digits_exec(&t) {
        return None;
    }
    proof {
        assert(date@.len() == 8);
        assert(date@.subrange(0, 4) =~= date@.take(4));
        assert(t@.subrange(0, 2) =~= t@.take(2));
        assert forall|i: int| 0 <= i < 8 implies is_digit(#[trigger] date@[i]) by {
            let d = dir_name(p@);
            if i < 4 {
                assert(date@[i] == d.take(4)[i]);
            } else if i < 6 {
                assert(date@[i] == d.subrange(5, 7)[i - 4]);
            } else {
                assert(date@[i] == d.subrange(8, 10)[i - 6]);
            }
        }
        assert(all_digits(date@.subrange(0, 4)));
        assert(all_digits(date@.subrange(4, 6)));
        assert(all_digits(date@.subrange(6, 8)));
        assert(all_digits(t@.subrange(0, 2)));
        assert(all_digits(t@.subrange(2, 4)));
        assert(all_digits(t@.subrange(4, 6)));
    }
    let y = num_exec(&date, 0, 4);
    let mo = num_exec(&date, 4, 6);
    let d = num_exec(&date, 6, 8);
    let h = num_exec(&t, 0, 2);
    let mi = num_exec(&t, 2, 4);
    let s = num_exec(&t, 4, 6);
    utc_timestamp(y as i32, mo, d, h, mi, s)
}

/// The best creation time of a file: its modified time, else its created
/// time, else the time its path records, else `now`.
pub fn pick_timestamp(modified: Option<i64>, created: Option<i64>, path: &str, now: i64) -> (r: i64)
    ensures
        r as int == best_timestamp(modified, created, path_timestamp(path@), now),
{
    match modified {
        Some(m) => m,
        None => match created {
            Some(c) => c,
            None => match path_timestamp_of(path) {
                Some(t) => t,
                None => now,
            },
        },
    }
}

} // verus!
