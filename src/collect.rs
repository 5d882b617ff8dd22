//! Merging the coverage files of several runs into one.
use vstd::prelude::*;

use crate::coverage::CoverageSchema;
use crate::frame::strings_view;
use crate::text::{chars_of, same_chars, string_of};

verus! {

/// The characters of `e` are `json` in any mix of upper and lower case.
pub open spec fn is_json_ext(e: Seq<char>) -> bool {
    e.len() == 4 && (e[0] == 'j' || e[0] == 'J') && (e[1] == 's' || e[1] == 'S') && (e[2] == 'o'
        || e[2] == 'O') && (e[3] == 'n' || e[3] == 'N')
}

/// Whether a file extension names JSON, ignoring case.
pub fn is_json_extension(ext: &str) -> (r: bool)
    ensures
        r == is_json_ext(ext@),
{
    let e = chars_of(ext);
    e.len() == 4 && (e[0] == 'j' || e[0] == 'J') && (e[1] == 's' || e[1] == 'S') && (e[2] == 'o'
        || e[2] == 'O') && (e[3] == 'n' || e[3] == 'N')
}

/// Appends the runs of `more` to those of `into`, in order.
pub fn merge_coverage(into: &mut CoverageSchema, more: CoverageSchema)
    ensures
        final(into).version == old(into).version,
        final(into).test_runs@ == old(into).test_runs@ + more.test_runs@,
{
    let mut runs = more.test_runs;
    into.test_runs.append(&mut runs);
}

/// Whether any run declares at least one test.
pub fn has_tests(schema: &CoverageSchema) -> (r: bool)
    ensures
        r == exists|i: int|
            0 <= i < schema.test_runs@.len() && (#[trigger] schema.test_runs@[i]).nr_of_tests > 0,
{
    let mut i: usize = 0;
    while i < schema.test_runs.len()
        invariant
            i <= schema.test_runs@.len(),
            forall|j: int| 0 <= j < i ==> (#[trigger] schema.test_runs@[j]).nr_of_tests == 0,
        decreases schema.test_runs.len() - i,
    {
        if schema.test_runs[i].nr_of_tests > 0 {
            return true;
        }
        i = i + 1;
    }
    false
}

/// The pieces of `s` between line feeds.
pub open spec fn newline_pieces(s: Seq<char>) -> Seq<Seq<char>>
    decreases s.len(),
{
    if s.len() == 0 {
        seq![Seq::empty()]
    } else if s[0] == '\n' {
        seq![Seq::<char>::empty()] + newline_pieces(s.skip(1))
    } else {
        let rest = newline_pieces(s.skip(1));
        rest.update(0, seq![s[0]] + rest[0])
    }
}

proof fn lemma_newline_pieces_nonempty(s: Seq<char>)
    ensures
        newline_pieces(s).len() >= 1,
    decreases s.len(),
{
    if s.len() > 0 {
        lemma_newline_pieces_nonempty(s.skip(1));
    }
}

/// A piece that a line feed ended, without one carriage return before the line feed.
pub open spec fn strip_cr(p: Seq<char>) -> Seq<char> {
    if p.len() > 0 && p.last() == '\r' {
        p.drop_last()
    } else {
        p
    }
}

/// The lines of a text as `str::lines` gives them: split after each `\n`, the `\n` and a
/// `\r` right before it removed, and no empty line after a final `\n`.
pub open spec fn lines_of(s: Seq<char>) -> Seq<Seq<char>> {
    let p = newline_pieces(s);
    let ended = p.drop_last().map_values(|x: Seq<char>| strip_cr(x));
    if p.last().len() == 0 {
        ended
    } else {
        ended.push(p.last())
    }
}

fn split_newlines(s: &Vec<char>) -> (r: Vec<Vec<char>>)
    ensures
        r@.map_values(|p: Vec<char>| p@) == newline_pieces(s@),
{
    let mut pieces: Vec<Vec<char>> = Vec::new();
    let mut cur: Vec<char> = Vec::new();
    let mut i: usize = 0;
    proof {
        lemma_newline_pieces_nonempty(s@);
        assert(s@.skip(0) == s@);
    }
    while i < s.len()
        invariant
            i <= s.len(),
            newline_pieces(s@.skip(i as int)).len() >= 1,
            pieces@.map_values(|p: Vec<char>| p@) + newline_pieces(s@.skip(i as int)).update(
                0,
                cur@ + newline_pieces(s@.skip(i as int))[0],
            ) == newline_pieces(s@),
        decreases s.len() - i,
    {
        let ghost rest = s@.skip(i as int);
        proof {
            assert(rest.skip(1) == s@.skip(i + 1));
            lemma_newline_pieces_nonempty(rest.skip(1));
        }
        if s[i] == '\n' {
            proof {
                let tail = newline_pieces(rest.skip(1));
                assert(newline_pieces(rest) == seq![Seq::<char>::empty()] + tail);
                let old_pieces = pieces@.map_values(|p: Vec<char>| p@);
                assert(newline_pieces(rest).update(0, cur@ + newline_pieces(rest)[0]) =~= seq![cur@]
                    + tail);
                assert(tail.update(0, Seq::<char>::empty() + tail[0]) =~= tail);
                assert(old_pieces.push(cur@) + tail.update(0, Seq::<char>::empty() + tail[0])
                    =~= old_pieces + (seq![cur@] + tail));
            }
            let ghost before = pieces@.map_values(|p: Vec<char>| p@);
            let ghost cur_view = cur@;
            pieces.push(cur);
            cur = Vec::new();
            proof {
                assert(pieces@.map_values(|p: Vec<char>| p@) =~= before.push(cur_view));
            }
        } else {
            let c = s[i];
            proof {
                let tail = newline_pieces(rest.skip(1));
                assert(newline_pieces(rest) == tail.update(0, seq![c] + tail[0]));
                assert(cur@ + (seq![c] + tail[0]) =~= cur@.push(c) + tail[0]);
                assert(newline_pieces(rest).update(0, cur@ + newline_pieces(rest)[0])
                    =~= tail.update(0, cur@.push(c) + tail[0]));
            }
            cur.push(c);
        }
        i = i + 1;
    }
    proof {
        assert(s@.skip(i as int) =~= Seq::<char>::empty());
    }
    pieces.push(cur);
    proof {
        assert(pieces@.map_values(|p: Vec<char>| p@) =~= newline_pieces(s@));
    }
    pieces
}

fn strip_cr_exec(p: &Vec<char>) -> (r: String)
    ensures
        r@ == strip_cr(p@),
{
    if p.len() > 0 && p[p.len() - 1] == '\r' {
        let mut q: Vec<char> = Vec::new();
        let mut k: usize = 0;
        while k + 1 < p.len()
            invariant
                p.len() > 0,
                k + 1 <= p.len(),
                q@ == p@.take(k as int),
            decreases p.len() - k,
        {
            q.push(p[k]);
            k = k + 1;
            proof {
                assert(q@ =~= p@.take(k as int));
            }
        }
        proof {
            assert(p@.take(k as int) =~= p@.drop_last());
        }
        string_of(&q)
    } else {
        string_of(p)
    }
}

/// The lines of a text, as `lines_of` states them.
pub fn text_lines(s: &str) -> (r: Vec<String>)
    ensures
        strings_view(r@) == lines_of(s@),
{
    let cs = chars_of(s);
    let pieces = split_newlines(&cs);
    let ghost pv = pieces@.map_values(|p: Vec<char>| p@);
    let n = pieces.len();
    proof {
        lemma_newline_pieces_nonempty(s@);
    }
    let mut out: Vec<String> = Vec::new();
    let mut k: usize = 0;
    while k + 1 < n
        invariant
            n == pieces.len(),
            n >= 1,
            k + 1 <= n,
            pv == pieces@.map_values(|p: Vec<char>| p@),
            strings_view(out@) == pv.take(k as int).map_values(|x: Seq<char>| strip_cr(x)),
        decreases n - k,
    {
        let line = strip_cr_exec(&pieces[k]);
        let ghost before = strings_view(out@);
        out.push(line);
        proof {
            assert(strings_view(out@) =~= before.push(strip_cr(pv[k as int])));
            assert(pv.take(k + 1).map_values(|x: Seq<char>| strip_cr(x)) =~= pv.take(
                k as int,
            ).map_values(|x: Seq<char>| strip_cr(x)).push(strip_cr(pv[k as int])));
        }
        k = k + 1;
    }
    proof {
        assert(pv.take(k as int) =~= pv.drop_last());
    }
    if pieces[n - 1].len() > 0 {
        let ghost before = strings_view(out@);
        let last = string_of(&pieces[n - 1]);
        out.push(last);
        proof {
            assert(strings_view(out@) =~= before.push(pv.last()));
        }
    } else {
        proof {
            assert(pv.last().len() == 0);
        }
    }
    out
}

/// Whether one of the lines is `entry`.
pub fn lines_contain(lines: &Vec<String>, entry: &str) -> (r: bool)
    ensures
        r == strings_view(lines@).contains(entry@),
{
    let e = chars_of(entry);
    let ghost v = strings_view(lines@);
    let mut i: usize = 0;
    while i < lines.len()
        invariant
            i <= lines.len(),
            v == strings_view(lines@),
            e@ == entry@,
            forall|j: int| 0 <= j < i ==> v[j] != entry@,
        decreases lines.len() - i,
    {
        if same_chars(&chars_of(lines[i].as_str()), &e) {
            proof {
                assert(v[i as int] == entry@);
            }
            return true;
        }
        i = i + 1;
    }
    false
}

/// Whether the index of coverage files already lists `entry` on a line of its own.
pub fn index_lists(content: &str, entry: &str) -> (r: bool)
    ensures
        r == lines_of(content@).contains(entry@),
{
    let lines = text_lines(content);
    lines_contain(&lines, entry)
}

} // verus!
