//! Character-level helpers over the text of the daemon's replies.
use vstd::prelude::*;
use vstd::slice::{slice_subrange, slice_to_vec};

verus! {

/// Index of the first occurrence of `pat` in `s` at or after `k`.
pub open spec fn find_from(s: Seq<char>, pat: Seq<char>, k: int) -> Option<int>
    decreases s.len() + 1 - k,
{
    if k < 0 || k + pat.len() > s.len() {
        None
    } else if s.subrange(k, k + pat.len()) == pat {
        Some(k)
    } else {
        find_from(s, pat, k + 1)
    }
}

/// Index of the first occurrence of the character `c` in `s`.
pub open spec fn first_index_of(s: Seq<char>, c: char) -> Option<int> {
    find_from(s, seq![c], 0)
}

/// `s` split at the first occurrence of `c`: the part before it and, when
/// `c` occurs, the part after it.
pub open spec fn split_first(s: Seq<char>, c: char) -> (Seq<char>, Option<Seq<char>>) {
    match first_index_of(s, c) {
        Some(i) => (s.take(i), Some(s.skip(i + 1))),
        None => (s, None),
    }
}

pub open spec fn has_prefix(s: Seq<char>, p: Seq<char>) -> bool {
    p.len() <= s.len() && s.take(p.len() as int) == p
}

pub open spec fn has_suffix(s: Seq<char>, p: Seq<char>) -> bool {
    p.len() <= s.len() && s.skip(s.len() - p.len()) == p
}

pub open spec fn contains(s: Seq<char>, p: Seq<char>) -> bool {
    find_from(s, p, 0) is Some
}

pub proof fn lemma_find_from_bounds(s: Seq<char>, pat: Seq<char>, k: int)
    ensures
        find_from(s, pat, k) matches Some(j) ==> k <= j && j + pat.len() <= s.len()
            && s.subrange(j, j + pat.len()) == pat,
    decreases s.len() + 1 - k,
{
    if k >= 0 && k + pat.len() <= s.len() && s.subrange(k, k + pat.len()) != pat {
        lemma_find_from_bounds(s, pat, k + 1);
    }
}

/// Relies on `str::chars` and `collect`: the characters of `s`, in order.
#[verifier::external_body]
pub fn chars_of(s: &str) -> (r: Vec<char>)
    ensures
        r@ == s@,
{
    s.chars().collect()
}

/// Relies on `collect` into a `String`: the string made of `cs`, in order.
#[verifier::external_body]
pub fn string_of(cs: &[char]) -> (r: String)
    ensures
        r@ == cs@,
{
    cs.iter().collect()
}

/// The string made of `v[lo..hi]`.
pub fn substring(v: &Vec<char>, lo: usize, hi: usize) -> (r: String)
    requires
        lo <= hi <= v@.len(),
    ensures
        r@ == v@.subrange(lo as int, hi as int),
{
    string_of(slice_subrange(v.as_slice(), lo, hi))
}

/// First index at or after `from` where `pat` occurs in `v`.
pub fn find(v: &Vec<char>, pat: &Vec<char>, from: usize) -> (r: Option<usize>)
    requires
        from <= v@.len(),
    ensures
        r matches Some(j) ==> find_from(v@, pat@, from as int) == Some(j as int),
        r is None ==> find_from(v@, pat@, from as int) is None,
{
    let mut i: usize = from;
    if pat.len() > v.len() || from > v.len() - pat.len() {
        proof {
            assert(find_from(v@, pat@, from as int) is None);
        }
        return None;
    }
    let vlen: usize = v.len();
    let last: usize = vlen - pat.len();
    loop
        invariant
            from <= i <= last,
            vlen == v@.len(),
            last + pat@.len() == v@.len(),
            find_from(v@, pat@, from as int) == find_from(v@, pat@, i as int),
        decreases last - i,
    {
        let mut j: usize = 0;
        let mut same = true;
        while j < pat.len()
            invariant
                i <= last,
                vlen == v@.len(),
                last + pat@.len() == v@.len(),
                j <= pat@.len(),
                same == (forall|k: int| 0 <= k < j ==> v@[i + k] == pat@[k]),
            decreases pat@.len() - j,
        {
            if v[i + j] != pat[j] {
                same = false;
            }
            j = j + 1;
        }
        proof {
            if !same {
                let k = choose|k: int| 0 <= k < pat@.len() && v@[i + k] != pat@[k];
                assert(v@.subrange(i as int, i + pat@.len())[k] != pat@[k]);
            } else {
                assert(v@.subrange(i as int, i + pat@.len()) =~= pat@);
            }
        }
        if same {
            return Some(i);
        }
        if i == last {
            proof {
                assert(find_from(v@, pat@, i + 1) is None);
            }
            return None;
        }
        i = i + 1;
    }
}

/// The characters that `char::is_whitespace` accepts: Unicode's White_Space.
pub open spec fn is_ws(c: char) -> bool {
    ||| '\t' <= c <= '\r'
    ||| c == ' '
    ||| c == '\u{85}'
    ||| c == '\u{a0}'
    ||| c == '\u{1680}'
    ||| '\u{2000}' <= c <= '\u{200a}'
    ||| c == '\u{2028}'
    ||| c == '\u{2029}'
    ||| c == '\u{202f}'
    ||| c == '\u{205f}'
    ||| c == '\u{3000}'
}

pub fn is_whitespace(c: char) -> (r: bool)
    ensures
        r == is_ws(c),
{
    ('\t' <= c && c <= '\r') || c == ' ' || c == '\u{85}' || c == '\u{a0}' || c == '\u{1680}'
        || ('\u{2000}' <= c && c <= '\u{200a}') || c == '\u{2028}' || c == '\u{2029}'
        || c == '\u{202f}' || c == '\u{205f}' || c == '\u{3000}'
}

/// A separator: the NUL character, or else whitespace.
pub open spec fn is_sep(nul: bool, c: char) -> bool {
    if nul {
        c == '\0'
    } else {
        is_ws(c)
    }
}

pub open spec fn keep(t: Seq<char>) -> Seq<Seq<char>> {
    if t.len() == 0 {
        seq![]
    } else {
        seq![t]
    }
}

/// The non-empty pieces of `s[lo..]` between separators, where the piece
/// at hand began at `lo` and the scan has reached `i`.
pub open spec fn pieces_from(s: Seq<char>, nul: bool, lo: int, i: int) -> Seq<Seq<char>>
    decreases s.len() - i,
{
    if i >= s.len() {
        keep(s.subrange(lo, s.len() as int))
    } else if is_sep(nul, s[i]) {
        keep(s.subrange(lo, i)) + pieces_from(s, nul, i + 1, i + 1)
    } else {
        pieces_from(s, nul, lo, i + 1)
    }
}

/// The non-empty pieces of `s` between separators, in order.
pub open spec fn pieces(s: Seq<char>, nul: bool) -> Seq<Seq<char>> {
    pieces_from(s, nul, 0, 0)
}

/// Every piece from `lo` on is non-empty.
pub proof fn lemma_pieces_from_nonempty(s: Seq<char>, nul: bool, lo: int, i: int)
    requires
        0 <= lo <= i <= s.len(),
    ensures
        forall|j: int|
            0 <= j < pieces_from(s, nul, lo, i).len() ==> #[trigger] pieces_from(
                s,
                nul,
                lo,
                i,
            )[j].len() > 0,
    decreases s.len() - i,
{
    if i < s.len() {
        if is_sep(nul, s[i]) {
            lemma_pieces_from_nonempty(s, nul, i + 1, i + 1);
            let head = keep(s.subrange(lo, i));
            let tail = pieces_from(s, nul, i + 1, i + 1);
            assert(pieces_from(s, nul, lo, i) == head + tail);
            assert forall|j: int| 0 <= j < (head + tail).len() implies #[trigger] (head
                + tail)[j].len() > 0 by {
                if j >= head.len() {
                    assert((head + tail)[j] == tail[j - head.len()]);
                }
            }
        } else {
            lemma_pieces_from_nonempty(s, nul, lo, i + 1);
            assert(pieces_from(s, nul, lo, i) == pieces_from(s, nul, lo, i + 1));
        }
    } else {
        assert(pieces_from(s, nul, lo, i) == keep(s.subrange(lo, s.len() as int)));
    }
}

/// The non-empty pieces of `v` between separators, each as its own
/// characters.
pub fn split_pieces(v: &Vec<char>, nul: bool) -> (r: Vec<Vec<char>>)
    ensures
        r@.len() == pieces(v@, nul).len(),
        forall|j: int| 0 <= j < r@.len() ==> #[trigger] r@[j]@ == pieces(v@, nul)[j],
{
    let mut out: Vec<Vec<char>> = Vec::new();
    let ghost done: Seq<Seq<char>> = seq![];
    let mut lo: usize = 0;
    let mut i: usize = 0;
    while i < v.len()
        invariant
            lo <= i <= v@.len(),
            pieces(v@, nul) == done + pieces_from(v@, nul, lo as int, i as int),
            out@.len() == done.len(),
            forall|j: int| 0 <= j < out@.len() ==> #[trigger] out@[j]@ == done[j],
        decreases v@.len() - i,
    {
        let c = v[i];
        let sep = if nul {
            c == '\0'
        } else {
            is_whitespace(c)
        };
        if sep {
            if lo < i {
                let piece = slice_to_vec(slice_subrange(v.as_slice(), lo, i));
                out.push(piece);
            }
            proof {
                let old_done = done;
                done = done + keep(v@.subrange(lo as int, i as int));
                assert(old_done + (keep(v@.subrange(lo as int, i as int)) + pieces_from(
                    v@,
                    nul,
                    i + 1,
                    i + 1,
                )) =~= done + pieces_from(v@, nul, i + 1, i + 1));
            }
            lo = i + 1;
        }
        i = i + 1;
    }
    if lo < i {
        let piece = slice_to_vec(slice_subrange(v.as_slice(), lo, i));
        out.push(piece);
    }
    proof {
        done = done + keep(v@.subrange(lo as int, i as int));
    }
    out
}

} // verus!
