//! The desktop notifications the application shows, as text. Showing them
//! is left to the application.
use vstd::prelude::*;
use vstd::string::StringExecFns;
use crate::text::{chars_of, copy_str, push_char, string_range};

verus! {

/// A notification: a title and a message.
#[derive(Debug)]
pub struct Notice {
    pub title: String,
    pub message: String,
}

pub open spec fn digit_char(d: int) -> char {
    if d == 0 {
        '0'
    } else if d == 1 {
        '1'
    } else if d == 2 {
        '2'
    } else if d == 3 {
        '3'
    } else if d == 4 {
        '4'
    } else if d == 5 {
        '5'
    } else if d == 6 {
        '6'
    } else if d == 7 {
        '7'
    } else if d == 8 {
        '8'
    } else {
        '9'
    }
}

/// The decimal digits of `n`.
pub open spec fn decimal(n: nat) -> Seq<char>
    decreases n,
{
    if n < 10 {
        seq![digit_char(n as int)]
    } else {
        decimal(n / 10).push(digit_char((n % 10) as int))
    }
}

fn digit_exec(d: u64) -> (r: char)
    requires
        d < 10,
    ensures
        r == digit_char(d as int),
{
    if d == 0 {
        '0'
    } else if d == 1 {
        '1'
    } else if d == 2 {
        '2'
    } else if d == 3 {
        '3'
    } else if d == 4 {
        '4'
    } else if d == 5 {
        '5'
    } else if d == 6 {
        '6'
    } else if d == 7 {
        '7'
    } else if d == 8 {
        '8'
    } else {
        '9'
    }
}

/// Appends the decimal digits of `n` to `s`.
fn push_decimal(s: &mut String, n: u64)
    ensures
        final(s)@ == old(s)@ + decimal(n as nat),
    decreases n,
{
    if n >= 10 {
        push_decimal(s, n / 10);
    }
    push_char(s, digit_exec(n % 10));
    assert(s@ =~= old(s)@ + decimal(n as nat));
}

/// The decimal digits of `n`.
pub(crate) fn decimal_string(n: u64) -> (r: String)
    ensures
        r@ == decimal(n as nat),
{
    let mut s = String::new();
    push_decimal(&mut s, n);
    assert(s@ =~= decimal(n as nat));
    s
}

/// The longest preview of a text, in bytes of UTF-8.
pub const PREVIEW_BYTES: usize = 100;

/// How many bytes UTF-8 takes for `c`.
pub open spec fn char_bytes(c: char) -> nat {
    let u = c as u32;
    if u < 0x80 {
        1
    } else if u < 0x800 {
        2
    } else if u < 0x10000 {
        3
    } else {
        4
    }
}

/// How many bytes UTF-8 takes for `s`.
pub open spec fn utf8_len(s: Seq<char>) -> nat
    decreases s.len(),
{
    if s.len() == 0 {
        0
    } else {
        utf8_len(s.drop_last()) + char_bytes(s.last())
    }
}

/// From position `i`, with `used` bytes taken, how many leading characters
/// of `s` fit in `limit` bytes.
pub open spec fn fit_count(s: Seq<char>, i: int, used: nat, limit: nat) -> int
    decreases s.len() - i,
{
    if 0 <= i < s.len() && used + char_bytes(s[i]) <= limit {
        fit_count(s, i + 1, used + char_bytes(s[i]), limit)
    } else {
        i
    }
}

/// A text longer than a hundred bytes cut at the last character boundary
/// within them and marked with `...`.
pub open spec fn preview(s: Seq<char>) -> Seq<char> {
    if utf8_len(s) > PREVIEW_BYTES {
        s.take(fit_count(s, 0, 0, PREVIEW_BYTES as nat)) + seq!['.', '.', '.']
    } else {
        s
    }
}

fn char_bytes_exec(c: char) -> (r: usize)
    ensures
        r == char_bytes(c),
{
    let u = c as u32;
    if u < 0x80 {
        1
    } else if u < 0x800 {
        2
    } else if u < 0x10000 {
        3
    } else {
        4
    }
}

proof fn lemma_utf8_prefix(s: Seq<char>, m: int)
    requires
        0 <= m <= s.len(),
    ensures
        utf8_len(s.take(m)) <= utf8_len(s),
    decreases s.len(),
{
    if m < s.len() {
        assert(s.drop_last().take(m) =~= s.take(m));
        lemma_utf8_prefix(s.drop_last(), m);
    } else {
        assert(s.take(m) =~= s);
    }
}

pub fn show_recording_started() -> (r: Notice)
    ensures
        r.title@ == "Recording Started"@,
        r.message@ == "Voice recording is now active. Press hotkey again to stop."@,
{
    Notice {
        title: copy_str("Recording Started"),
        message: copy_str("Voice recording is now active. Press hotkey again to stop."),
    }
}

pub fn show_recording_stopped(duration_secs: u64) -> (r: Notice)
    ensures
        r.title@ == "Recording Stopped"@,
        r.message@ == "Recording saved ("@ + decimal(duration_secs as nat)
            + " seconds). Transcribing..."@,
{
    let mut m = copy_str("Recording saved (");
    let d = decimal_string(duration_secs);
    m.append(d.as_str());
    m.append(" seconds). Transcribing...");
    Notice { title: copy_str("Recording Stopped"), message: m }
}

pub fn show_transcription_complete(text: &str) -> (r: Notice)
    ensures
        r.title@ == "Transcription Complete"@,
        r.message@ == preview(text@),
{
    let v = chars_of(text);
    let n = v.len();
    let mut i: usize = 0;
    let mut used: usize = 0;
    while i < n && used + char_bytes_exec(v[i]) <= PREVIEW_BYTES
        invariant
            n == v@.len(),
            i <= n,
            used <= PREVIEW_BYTES,
            used == utf8_len(v@.take(i as int)),
            fit_count(v@, 0, 0, PREVIEW_BYTES as nat) == fit_count(v@, i as int, used as nat, PREVIEW_BYTES as nat),
        decreases n - i,
    {
        proof {
            let t = v@.take(i + 1);
            assert(t.drop_last() =~= v@.take(i as int));
            assert(t.last() == v@[i as int]);
        }
        used = used + char_bytes_exec(v[i]);
        i = i + 1;
    }
    let message = if i < n {
        proof {
            let t = v@.take(i + 1);
            assert(t.drop_last() =~= v@.take(i as int));
            assert(t.last() == v@[i as int]);
            lemma_utf8_prefix(v@, i + 1);
        }
        let mut m = string_range(&v, 0, i);
        m.append("...");
        proof {
            reveal_strlit("...");
        }
        assert(m@ =~= preview(text@));
        m
    } else {
        assert(v@.take(i as int) =~= v@);
        copy_str(text)
    };
    Notice { title: copy_str("Transcription Complete"), message }
}

pub fn show_error(error: &str) -> (r: Notice)
    ensures
        r.title@ == "Error"@,
        r.message@ == error@,
{
    Notice { title: copy_str("Error"), message: copy_str(error) }
}

} // verus!
