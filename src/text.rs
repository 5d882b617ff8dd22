//! Character-level helpers shared by the parsers and builders of the library.
use vstd::prelude::*;

verus! {

/// The pieces of `s` between occurrences of the separator `::`, scanned from the left.
pub open spec fn split_colons(s: Seq<char>) -> Seq<Seq<char>>
    decreases s.len(),
{
    if s.len() == 0 {
        seq![Seq::empty()]
    } else if s.len() >= 2 && s[0] == ':' && s[1] == ':' {
        seq![Seq::<char>::empty()] + split_colons(s.skip(2))
    } else {
        let rest = split_colons(s.skip(1));
        rest.update(0, seq![s[0]] + rest[0])
    }
}

pub proof fn lemma_split_colons_nonempty(s: Seq<char>)
    ensures
        split_colons(s).len() >= 1,
    decreases s.len(),
{
    if s.len() == 0 {
    } else if s.len() >= 2 && s[0] == ':' && s[1] == ':' {
        lemma_split_colons_nonempty(s.skip(2));
    } else {
        lemma_split_colons_nonempty(s.skip(1));
    }
}

/// `w` occurs in `s` as a contiguous run.
pub open spec fn contains_text(s: Seq<char>, w: Seq<char>) -> bool {
    exists|i: int| 0 <= i && i + w.len() <= s.len() && #[trigger] s.subrange(i, i + w.len()) == w
}

/// Pieces joined with `::` between them.
pub open spec fn join_colons(ps: Seq<Seq<char>>) -> Seq<char>
    decreases ps.len(),
{
    if ps.len() == 0 {
        Seq::empty()
    } else if ps.len() == 1 {
        ps[0]
    } else {
        join_colons(ps.drop_last()) + "::"@ + ps.last()
    }
}

proof fn lemma_join_cons(a: Seq<char>, ps: Seq<Seq<char>>)
    requires
        ps.len() >= 1,
    ensures
        join_colons(seq![a] + ps) == a + "::"@ + join_colons(ps),
    decreases ps.len(),
{
    let q = seq![a] + ps;
    assert(q.len() >= 2);
    assert(q.last() == ps.last());
    if ps.len() == 1 {
        assert(q.drop_last() =~= seq![a]);
        assert(join_colons(seq![a]) == a);
        assert(join_colons(ps) == ps[0]);
    } else {
        lemma_join_cons(a, ps.drop_last());
        assert(q.drop_last() =~= seq![a] + ps.drop_last());
        assert(a + "::"@ + join_colons(ps.drop_last()) + "::"@ + ps.last() =~= a + "::"@ + (
        join_colons(ps.drop_last()) + "::"@ + ps.last()));
    }
}

proof fn lemma_join_extend_first(x: Seq<char>, ps: Seq<Seq<char>>)
    requires
        ps.len() >= 1,
    ensures
        join_colons(ps.update(0, x + ps[0])) == x + join_colons(ps),
    decreases ps.len(),
{
    let q = ps.update(0, x + ps[0]);
    if ps.len() > 1 {
        lemma_join_extend_first(x, ps.drop_last());
        assert(q.drop_last() =~= ps.drop_last().update(0, x + ps.drop_last()[0]));
        assert(x + join_colons(ps.drop_last()) + "::"@ + ps.last() =~= x + (join_colons(
            ps.drop_last(),
        ) + "::"@ + ps.last()));
    }
}

/// Joining the pieces of a split gives the string back.
pub proof fn lemma_join_split(s: Seq<char>)
    ensures
        join_colons(split_colons(s)) == s,
    decreases s.len(),
{
    reveal_strlit("::");
    if s.len() == 0 {
    } else if s.len() >= 2 && s[0] == ':' && s[1] == ':' {
        lemma_split_colons_nonempty(s.skip(2));
        lemma_join_split(s.skip(2));
        lemma_join_cons(Seq::empty(), split_colons(s.skip(2)));
        assert(Seq::<char>::empty() + "::"@ + s.skip(2) =~= s);
    } else {
        lemma_split_colons_nonempty(s.skip(1));
        lemma_join_split(s.skip(1));
        lemma_join_extend_first(seq![s[0]], split_colons(s.skip(1)));
        assert(seq![s[0]] + s.skip(1) =~= s);
    }
}

/// The characters of a string, in order.
///
/// Relies on `str::chars`, which yields the string's characters from first to last.
#[verifier::external_body]
pub(crate) fn chars_of(s: &str) -> (r: Vec<char>)
    ensures
        r@ == s@,
{
    s.chars().collect()
}

/// The string made of the given characters.
///
/// Relies on `String`'s `FromIterator<&char>`, which appends the characters in order.
#[verifier::external_body]
pub(crate) fn string_of(cs: &Vec<char>) -> (r: String)
    ensures
        r@ == cs@,
{
    cs.iter().collect()
}

/// Appends `b` to the end of `a`.
pub(crate) fn push_all(a: &mut Vec<char>, b: &Vec<char>)
    ensures
        final(a)@ == old(a)@ + b@,
{
    let mut i: usize = 0;
    while i < b.len()
        invariant
            i <= b.len(),
            a@ == old(a)@ + b@.take(i as int),
        decreases b.len() - i,
    {
        a.push(b[i]);
        i = i + 1;
        assert(b@.take(i as int) == b@.take(i - 1) .push(b@[i - 1]));
    }
    assert(b@.take(b.len() as int) == b@);
}

/// Splits `s` at every `::`.
pub fn split_double_colon(s: &Vec<char>) -> (r: Vec<Vec<char>>)
    ensures
        r@.map_values(|p: Vec<char>| p@) == split_colons(s@),
{
    let mut pieces: Vec<Vec<char>> = Vec::new();
    let mut cur: Vec<char> = Vec::new();
    let mut i: usize = 0;
    proof {
        lemma_split_colons_nonempty(s@);
        assert(s@.skip(0) == s@);
    }
    while i < s.len()
        invariant
            i <= s.len(),
            split_colons(s@.skip(i as int)).len() >= 1,
            pieces@.map_values(|p: Vec<char>| p@) + split_colons(s@.skip(i as int)).update(
                0,
                cur@ + split_colons(s@.skip(i as int))[0],
            ) == split_colons(s@),
        decreases s.len() - i,
    {
        let ghost rest = s@.skip(i as int);
        if i + 1 < s.len() && s[i] == ':' && s[i + 1] == ':' {
            proof {
                assert(rest.skip(2) == s@.skip(i + 2));
                lemma_split_colons_nonempty(rest.skip(2));
                let tail = split_colons(rest.skip(2));
                assert(split_colons(rest) == seq![Seq::<char>::empty()] + tail);
                let old_pieces = pieces@.map_values(|p: Vec<char>| p@);
                assert(split_colons(rest).update(0, cur@ + split_colons(rest)[0]) =~= seq![cur@]
                    + tail);
                assert(tail.update(0, Seq::<char>::empty() + tail[0]) =~= tail);
                assert(old_pieces.push(cur@) + tail.update(0, Seq::<char>::empty() + tail[0])
                    =~= old_pieces + (seq![cur@] + tail));
            }
            let ghost before = pieces@.map_values(|p: Vec<char>| p@);
            let ghost cur_view = cur@;
            pieces.push(cur);
            cur = Vec::new();
            proof {
                assert(pieces@.map_values(|p: Vec<char>| p@) =~= before.push(cur_view));
            }
            i = i + 2;
        } else {
            let c = s[i];
            proof {
                assert(rest.skip(1) == s@.skip(i + 1));
                lemma_split_colons_nonempty(rest.skip(1));
                let tail = split_colons(rest.skip(1));
                assert(split_colons(rest) == tail.update(0, seq![c] + tail[0]));
                assert(cur@ + (seq![c] + tail[0]) =~= cur@.push(c) + tail[0]);
                assert(split_colons(rest).update(0, cur@ + split_colons(rest)[0]) =~= tail.update(
                    0,
                    cur@.push(c) + tail[0],
                ));
            }
            cur.push(c);
            i = i + 1;
        }
    }
    proof {
        assert(s@.skip(i as int) =~= Seq::<char>::empty());
        assert(split_colons(Seq::<char>::empty()) == seq![Seq::<char>::empty()]);
    }
    pieces.push(cur);
    proof {
        assert(pieces@.map_values(|p: Vec<char>| p@) =~= split_colons(s@));
    }
    pieces
}


/// Whether two character vectors hold the same characters.
pub fn same_chars(a: &Vec<char>, b: &Vec<char>) -> (r: bool)
    ensures
        r == (a@ == b@),
{
    if a.len() != b.len() {
        return false;
    }
    let mut k: usize = 0;
    while k < a.len()
        invariant
            a.len() == b.len(),
            k <= a.len(),
            forall|j: int| 0 <= j < k ==> a@[j] == b@[j],
        decreases a.len() - k,
    {
        if a[k] != b[k] {
            return false;
        }
        k = k + 1;
    }
    proof {
        assert(a@ =~= b@);
    }
    true
}


pub open spec fn digit_chars() -> Seq<char> {
    seq!['0', '1', '2', '3', '4', '5', '6', '7', '8', '9', 'a', 'b', 'c', 'd', 'e', 'f']
}

/// `n` written in `base` (2 to 16) with lower-case digits, no leading zeros.
pub open spec fn digits_in(n: nat, base: nat) -> Seq<char>
    decreases n,
{
    if base < 2 || n < base {
        seq![digit_chars()[(n % 16) as int]]
    } else {
        proof {
            assert(n / base < n) by (nonlinear_arith)
                requires
                    base >= 2,
                    n >= base,
            ;
        }
        digits_in(n / base, base).push(digit_chars()[(n % base) as int])
    }
}

fn digit_char(d: u64) -> (c: char)
    requires
        d < 16,
    ensures
        c == digit_chars()[d as int],
{
    let t: [char; 16] = ['0', '1', '2', '3', '4', '5', '6', '7', '8', '9', 'a', 'b', 'c', 'd', 'e', 'f'];
    proof {
        assert(t@ =~= digit_chars());
    }
    t[d as usize]
}

/// `n` in `base`: decimal for 10, lower-case hexadecimal for 16.
pub fn format_u64(n: u64, base: u64) -> (r: Vec<char>)
    requires
        2 <= base <= 16,
    ensures
        r@ == digits_in(n as nat, base as nat),
    decreases n,
{
    if n < base {
        let mut v: Vec<char> = Vec::new();
        v.push(digit_char(n));
        proof {
            assert(v@ =~= seq![digit_chars()[(n % 16) as int]]);
        }
        v
    } else {
        assert(n / base < n) by (nonlinear_arith)
            requires
                base >= 2,
                n >= base,
        ;
        let mut v = format_u64(n / base, base);
        v.push(digit_char(n % base));
        v
    }
}

} // verus!
