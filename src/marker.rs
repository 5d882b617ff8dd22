//! The test-marker line that the target's test harness prints before each test:
//! ``(i/N) running `name`...`` or ``(i/N) ignoring `name`...``.
use vstd::prelude::*;

use crate::text::chars_of;

verus! {

pub open spec fn is_ascii_digit(c: char) -> bool {
    '0' <= c <= '9'
}

/// Unicode `White_Space`, the characters that `\s` and `char::is_whitespace` accept.
pub open spec fn is_white(c: char) -> bool {
    ('\u{9}' <= c <= '\u{d}') || c == ' ' || c == '\u{85}' || c == '\u{a0}' || c == '\u{1680}'
        || ('\u{2000}' <= c <= '\u{200a}') || c == '\u{2028}' || c == '\u{2029}' || c
        == '\u{202f}' || c == '\u{205f}' || c == '\u{3000}'
}

/// End of the run of ASCII digits that starts at `i`.
pub open spec fn digits_end(s: Seq<char>, i: int) -> int
    decreases s.len() - i,
{
    if 0 <= i < s.len() && is_ascii_digit(s[i]) {
        digits_end(s, i + 1)
    } else {
        i
    }
}

/// The decimal number written by ASCII digits.
pub open spec fn digits_value(d: Seq<char>) -> nat
    decreases d.len(),
{
    if d.len() == 0 {
        0
    } else {
        digits_value(d.drop_last()) * 10 + ((d.last() as u32) - ('0' as u32)) as nat
    }
}

/// First line break at or after `i`, or the length of `s`.
pub open spec fn line_end(s: Seq<char>, i: int) -> int
    decreases s.len() - i,
{
    if i < 0 || i >= s.len() {
        s.len() as int
    } else if s[i] == '\n' {
        i
    } else {
        line_end(s, i + 1)
    }
}

/// Largest `e` with `lo <= e < hi` and a backtick at `e`, or -1.
pub open spec fn last_tick(s: Seq<char>, lo: int, hi: int) -> int
    decreases hi - lo,
{
    if hi <= lo {
        -1
    } else if s[hi - 1] == '`' {
        hi - 1
    } else {
        last_tick(s, lo, hi - 1)
    }
}

pub open spec fn starts_at(s: Seq<char>, i: int, w: Seq<char>) -> bool {
    0 <= i && i + w.len() <= s.len() && s.subrange(i, i + w.len()) == w
}

/// What a test marker announces: the declared number of tests (`None` where it does
/// not fit in a `u32`), whether the test runs or is ignored, and the test's name.
pub struct MarkerView {
    pub total: Option<u32>,
    pub running: bool,
    pub fn_name: Seq<char>,
}

/// ``(i/N) running `name`...`` read as the pattern
/// ``^\(\d+/(\d+)\)\s(running|ignoring)\s`(.+)`...`` with ASCII digits, where `.` is
/// any character but a line break and the name reaches to the last backtick that
/// still leaves three characters on its line.
pub open spec fn parse_marker(s: Seq<char>) -> Option<MarkerView> {
    let a = digits_end(s, 1);
    let b = digits_end(s, a + 1);
    let c = b + 1;
    let w = c + 1;
    let running = starts_at(s, w, "running"@);
    let ignoring = !running && starts_at(s, w, "ignoring"@);
    let k = if running {
        w + 7
    } else {
        w + 8
    };
    let st = k + 2;
    let e = last_tick(s, st + 1, line_end(s, st) - 3);
    if !(s.len() > 0 && s[0] == '(') {
        None
    } else if a == 1 || a >= s.len() || s[a] != '/' {
        None
    } else if b == a + 1 || b >= s.len() || s[b] != ')' {
        None
    } else if c >= s.len() || !is_white(s[c]) {
        None
    } else if !running && !ignoring {
        None
    } else if k + 1 >= s.len() || !is_white(s[k]) || s[k + 1] != '`' {
        None
    } else if e < 0 {
        None
    } else {
        let v = digits_value(s.subrange(a + 1, b));
        Some(
            MarkerView {
                total: if v <= u32::MAX {
                    Some(v as u32)
                } else {
                    None
                },
                running,
                fn_name: s.subrange(st, e),
            },
        )
    }
}


/// A parsed test marker.
#[derive(Clone, Debug)]
pub struct TestMarker {
    pub total: Option<u32>,
    pub running: bool,
    pub fn_name: Vec<char>,
}

impl View for TestMarker {
    type V = MarkerView;

    open spec fn view(&self) -> MarkerView {
        MarkerView { total: self.total, running: self.running, fn_name: self.fn_name@ }
    }
}

fn scan_digits(s: &Vec<char>, i: usize) -> (r: usize)
    requires
        i <= s.len(),
    ensures
        r == digits_end(s@, i as int),
        i <= r <= s.len(),
        forall|j: int| i <= j < r ==> is_ascii_digit(#[trigger] s@[j]),
{
    let mut k = i;
    while k < s.len() && '0' <= s[k] && s[k] <= '9'
        invariant
            i <= k <= s.len(),
            digits_end(s@, i as int) == digits_end(s@, k as int),
            forall|j: int| i <= j < k ==> is_ascii_digit(#[trigger] s@[j]),
        decreases s.len() - k,
    {
        k = k + 1;
    }
    k
}

proof fn lemma_digits_value_grows(d: Seq<char>)
    requires
        d.len() > 0,
        is_ascii_digit(d.last()),
    ensures
        digits_value(d) >= digits_value(d.drop_last()),
{
}

/// The number that the digits `s[a..b]` write, or `None` where it exceeds `u32::MAX`.
fn digits_number(s: &Vec<char>, a: usize, b: usize) -> (r: Option<u32>)
    requires
        a <= b <= s.len(),
        forall|j: int| a <= j < b ==> is_ascii_digit(#[trigger] s@[j]),
    ensures
        ({
            let v = digits_value(s@.subrange(a as int, b as int));
            r == if v <= u32::MAX {
                Some(v as u32)
            } else {
                None::<u32>
            }
        }),
{
    let mut v: u64 = 0;
    let mut over = false;
    let mut i = a;
    proof {
        assert(s@.subrange(a as int, a as int) =~= Seq::<char>::empty());
    }
    while i < b
        invariant
            a <= i <= b <= s.len(),
            forall|j: int| a <= j < b ==> is_ascii_digit(#[trigger] s@[j]),
            !over ==> v == digits_value(s@.subrange(a as int, i as int)) && v <= u32::MAX,
            over ==> digits_value(s@.subrange(a as int, i as int)) > u32::MAX,
        decreases b - i,
    {
        let ghost prev = s@.subrange(a as int, i as int);
        let ghost next = s@.subrange(a as int, i + 1);
        proof {
            assert(next.drop_last() =~= prev);
            assert(next.last() == s@[i as int]);
            lemma_digits_value_grows(next);
        }
        let d = (s[i] as u32) - ('0' as u32);
        if !over {
            let w = v * 10 + d as u64;
            if w > 4294967295u64 {
                over = true;
            } else {
                v = w;
            }
        }
        i = i + 1;
    }
    if over {
        None
    } else {
        Some(v as u32)
    }
}

fn find_line_end(s: &Vec<char>, i: usize) -> (r: usize)
    ensures
        r == line_end(s@, i as int),
        r <= s.len(),
{
    let mut k = i;
    while k < s.len() && s[k] != '\n'
        invariant
            i <= k,
            line_end(s@, i as int) == line_end(s@, k as int),
        decreases s.len() - k,
    {
        k = k + 1;
    }
    if k >= s.len() {
        s.len()
    } else {
        k
    }
}

fn find_last_tick(s: &Vec<char>, lo: usize, hi: usize) -> (r: Option<usize>)
    requires
        hi <= s.len(),
    ensures
        match r {
            Some(e) => last_tick(s@, lo as int, hi as int) == e as int && lo <= e < hi,
            None => last_tick(s@, lo as int, hi as int) == -1,
        },
{
    let mut h = hi;
    while h > lo
        invariant
            h <= hi <= s.len(),
            last_tick(s@, lo as int, hi as int) == last_tick(s@, lo as int, h as int),
        decreases h,
    {
        if s[h - 1] == '`' {
            return Some(h - 1);
        }
        h = h - 1;
    }
    None
}

pub(crate) fn starts_with_at(s: &Vec<char>, i: usize, w: &Vec<char>) -> (r: bool)
    ensures
        r == starts_at(s@, i as int, w@),
{
    if i > s.len() || w.len() > s.len() - i {
        return false;
    }
    let mut k: usize = 0;
    while k < w.len()
        invariant
            i + w.len() <= s.len(),
            k <= w.len(),
            s@.subrange(i as int, i + k) == w@.take(k as int),
        decreases w.len() - k,
    {
        if s[i + k] != w[k] {
            proof {
                assert(s@.subrange(i as int, i + w.len())[k as int] == s@[i + k]);
            }
            return false;
        }
        k = k + 1;
        proof {
            assert(s@.subrange(i as int, i + k) =~= w@.take(k as int));
        }
    }
    proof {
        assert(w@.take(w.len() as int) =~= w@);
    }
    true
}

fn is_white_char(c: char) -> (r: bool)
    ensures
        r == is_white(c),
{
    ('\u{9}' <= c && c <= '\u{d}') || c == ' ' || c == '\u{85}' || c == '\u{a0}' || c
        == '\u{1680}' || ('\u{2000}' <= c && c <= '\u{200a}') || c == '\u{2028}' || c
        == '\u{2029}' || c == '\u{202f}' || c == '\u{205f}' || c == '\u{3000}'
}

/// Reads a test marker from the characters of a frame's text.
pub fn parse_test_marker(s: &Vec<char>) -> (r: Option<TestMarker>)
    ensures
        match r {
            Some(m) => parse_marker(s@) == Some(m@),
            None => parse_marker(s@) is None,
        },
{
    let n = s.len();
    if !(n > 0 && s[0] == '(') {
        return None;
    }
    let a = scan_digits(s, 1);
    if a == 1 || a >= n || s[a] != '/' {
        return None;
    }
    let b = scan_digits(s, a + 1);
    if b == a + 1 || b >= n || s[b] != ')' {
        return None;
    }
    let c = b + 1;
    if c >= n || !is_white_char(s[c]) {
        return None;
    }
    let w = c + 1;
    let running_word = chars_of("running");
    let ignoring_word = chars_of("ignoring");
    proof {
        reveal_strlit("running");
        reveal_strlit("ignoring");
    }
    let running = starts_with_at(s, w, &running_word);
    let ignoring = !running && starts_with_at(s, w, &ignoring_word);
    if !running && !ignoring {
        return None;
    }
    let k = if running {
        w + 7
    } else {
        w + 8
    };
    if k >= n || k + 1 >= n || !is_white_char(s[k]) || s[k + 1] != '`' {
        return None;
    }
    let st = k + 2;
    if st >= n {
        proof {
            assert(line_end(s@, st as int) == n);
            assert(last_tick(s@, st + 1, n - 3) == -1);
        }
        return None;
    }
    let le = find_line_end(s, st);
    if le < 3 {
        proof {
            assert(last_tick(s@, st + 1, le - 3) == -1);
        }
        return None;
    }
    let e = match find_last_tick(s, st + 1, le - 3) {
        Some(e) => e,
        None => {
            return None;
        },
    };
    let total = digits_number(s, a + 1, b);
    let mut fn_name: Vec<char> = Vec::new();
    let mut j = st;
    proof {
        assert(s@.subrange(st as int, st as int) =~= fn_name@);
        assert(st + 1 <= e);
    }
    while j < e
        invariant
            st <= j <= e < s.len(),
            fn_name@ == s@.subrange(st as int, j as int),
        decreases e - j,
    {
        fn_name.push(s[j]);
        j = j + 1;
        proof {
            assert(fn_name@ =~= s@.subrange(st as int, j as int));
        }
    }
    Some(TestMarker { total, running, fn_name })
}

} // verus!
