//! The acronym reordering preprocessor. The raw source has a known encoding
//! quirk: word-stem letters trail a part-of-speech/abbreviation marker pair
//! instead of preceding it. Before structural parsing, every occurrence of
//! the literal marker pattern followed by a run of letters is rewritten so
//! that the letter run comes first. This is a plain text substitution over
//! the literal marker substrings; it knows nothing of element nesting.
use vstd::prelude::*;

use crate::chars::{is_letter, letter, str_to_chars};

verus! {

/// The literal opening of the marker pair.
pub open spec fn pos_abr_open() -> Seq<char> {
    seq!['<', 'p', 'o', 's', '>', '<', 'a', 'b', 'r', '>']
}

/// The literal close of the part-of-speech marker.
pub open spec fn pos_close() -> Seq<char> {
    seq!['<', '/', 'p', 'o', 's', '>']
}

/// The literal `lit` occurs in `s` starting at `i`.
pub open spec fn lit_at(s: Seq<char>, i: int, lit: Seq<char>) -> bool {
    0 <= i && i + lit.len() <= s.len() && forall|k: int|
        0 <= k < lit.len() ==> s[i + k] == lit[k]
}

/// The first close of the part-of-speech marker at or after `j`, unless a
/// line break comes first: the pattern never crosses a line.
pub open spec fn scan_close(s: Seq<char>, j: int) -> Option<int>
    decreases s.len() - j,
{
    if !(0 <= j && j < s.len()) {
        None
    } else if lit_at(s, j, pos_close()) {
        Some(j)
    } else if s[j] == '\n' {
        None
    } else {
        scan_close(s, j + 1)
    }
}

pub proof fn lemma_scan_close(s: Seq<char>, j: int)
    requires
        0 <= j,
    ensures
        match scan_close(s, j) {
            Some(c) => j <= c && lit_at(s, c, pos_close()),
            None => true,
        },
    decreases s.len() - j,
{
    if 0 <= j && j < s.len() && !lit_at(s, j, pos_close()) && s[j] != '\n' {
        lemma_scan_close(s, j + 1);
    }
}

/// The first position at or after `i` holding a character that is not a
/// letter; the length of `s` if all of the rest are letters.
pub open spec fn letters_end(s: Seq<char>, i: int) -> int
    decreases s.len() - i,
{
    if 0 <= i && i < s.len() && is_letter(s[i]) {
        letters_end(s, i + 1)
    } else {
        i
    }
}

pub proof fn lemma_letters_end(s: Seq<char>, i: int)
    requires
        0 <= i <= s.len(),
    ensures
        i <= letters_end(s, i) <= s.len(),
    decreases s.len() - i,
{
    if i < s.len() && is_letter(s[i]) {
        lemma_letters_end(s, i + 1);
    }
}

/// A whole pattern occurrence at `i`: the marker pair `[i, m)` followed by
/// the nonempty letter run `[m, k)`.
pub open spec fn acro_step(s: Seq<char>, i: int) -> Option<(int, int)> {
    if lit_at(s, i, pos_abr_open()) {
        match scan_close(s, i + pos_abr_open().len()) {
            Some(c) => {
                let m = c + pos_close().len();
                let k = letters_end(s, m);
                if k > m {
                    Some((m, k))
                } else {
                    None
                }
            },
            None => None,
        }
    } else {
        None
    }
}

/// The reordering from position `i` on: at each pattern occurrence the
/// letter run is moved before the marker pair; everything else is copied.
pub open spec fn acro_from(s: Seq<char>, i: int) -> Seq<char>
    decreases s.len() - i,
    via acro_from_dec
{
    if !(0 <= i && i < s.len()) {
        Seq::empty()
    } else {
        match acro_step(s, i) {
            Some(mk) => s.subrange(mk.0, mk.1) + s.subrange(i, mk.0) + acro_from(s, mk.1),
            None => seq![s[i]] + acro_from(s, i + 1),
        }
    }
}

#[via_fn]
proof fn acro_from_dec(s: Seq<char>, i: int) {
    if 0 <= i && i < s.len() && acro_step(s, i) is Some {
        lemma_scan_close(s, i + pos_abr_open().len());
        let c = scan_close(s, i + pos_abr_open().len())->Some_0;
        lemma_letters_end(s, c + pos_close().len());
    }
}

/// The whole preprocessor rewrite.
pub open spec fn acro_reorder(s: Seq<char>) -> Seq<char> {
    acro_from(s, 0)
}

/// The opening marker literal at runtime.
fn pos_abr_open_chars() -> (v: Vec<char>)
    ensures
        v@ == pos_abr_open(),
{
    let v = str_to_chars("<pos><abr>");
    proof {
        reveal_strlit("<pos><abr>");
        assert(v@ =~= pos_abr_open());
    }
    v
}

/// The closing marker literal at runtime.
fn pos_close_chars() -> (v: Vec<char>)
    ensures
        v@ == pos_close(),
{
    let v = str_to_chars("</pos>");
    proof {
        reveal_strlit("</pos>");
        assert(v@ =~= pos_close());
    }
    v
}

/// Runtime mirror of `lit_at`.
fn lit_at_exec(s: &Vec<char>, i: usize, lit: &Vec<char>) -> (b: bool)
    requires
        i <= s@.len(),
    ensures
        b == lit_at(s@, i as int, lit@),
{
    if s.len() - i < lit.len() {
        return false;
    }
    let mut k: usize = 0;
    while k < lit.len()
        invariant
            k <= lit@.len(),
            i + lit@.len() <= s@.len() <= usize::MAX,
            forall|x: int| 0 <= x < k ==> s@[i + x] == lit@[x],
        decreases lit@.len() - k,
    {
        if s[i + k] != lit[k] {
            return false;
        }
        k += 1;
    }
    true
}

/// Runtime mirror of `scan_close`.
fn scan_close_exec(s: &Vec<char>, j: usize, close: &Vec<char>) -> (r: Option<usize>)
    requires
        close@ == pos_close(),
    ensures
        match r {
            Some(c) => scan_close(s@, j as int) == Some(c as int) && j <= c
                && c + pos_close().len() <= s@.len(),
            None => scan_close(s@, j as int) is None,
        },
    decreases s@.len() - j,
{
    if j >= s.len() {
        return None;
    }
    if lit_at_exec(s, j, close) {
        return Some(j);
    }
    if s[j] == '\n' {
        return None;
    }
    scan_close_exec(s, j + 1, close)
}

/// Runtime mirror of `letters_end`.
fn letters_end_exec(s: &Vec<char>, i: usize) -> (j: usize)
    requires
        i <= s@.len(),
    ensures
        j == letters_end(s@, i as int),
        i <= j <= s@.len(),
    decreases s@.len() - i,
{
    if i < s.len() && letter(s[i]) {
        letters_end_exec(s, i + 1)
    } else {
        i
    }
}

/// The preprocessor at runtime over characters.
pub fn acro_reorder_exec(s: &Vec<char>) -> (r: Vec<char>)
    ensures
        r@ == acro_reorder(s@),
{
    let open = pos_abr_open_chars();
    let close = pos_close_chars();
    let mut out: Vec<char> = Vec::new();
    let mut i: usize = 0;
    while i < s.len()
        invariant
            i <= s@.len(),
            open@ == pos_abr_open(),
            close@ == pos_close(),
            acro_from(s@, 0) == out@ + acro_from(s@, i as int),
        decreases s@.len() - i,
    {
        let mut step: Option<(usize, usize)> = None;
        if lit_at_exec(s, i, &open) {
            match scan_close_exec(s, i + open.len(), &close) {
                Some(c) => {
                    let m = c + close.len();
                    let k = letters_end_exec(s, m);
                    if k > m {
                        step = Some((m, k));
                    }
                },
                None => {},
            }
        }
        proof {
            match step {
                Some(mk) => {
                    assert(acro_step(s@, i as int) == Some((mk.0 as int, mk.1 as int)));
                },
                None => {
                    assert(acro_step(s@, i as int) is None);
                },
            }
        }
        let ghost prev = out@;
        match step {
            Some(mk) => {
                crate::chars::append_range(&mut out, s, mk.0, mk.1);
                crate::chars::append_range(&mut out, s, i, mk.0);
                proof {
                    assert(prev + (s@.subrange(mk.0 as int, mk.1 as int) + s@.subrange(
                        i as int,
                        mk.0 as int,
                    ) + acro_from(s@, mk.1 as int)) =~= out@ + acro_from(s@, mk.1 as int));
                }
                i = mk.1;
            },
            None => {
                out.push(s[i]);
                proof {
                    assert(prev + (seq![s@[i as int]] + acro_from(s@, i + 1 as int)) =~= out@
                        + acro_from(s@, i + 1 as int));
                }
                i += 1;
            },
        }
    }
    proof {
        assert(out@ + acro_from(s@, s@.len() as int) =~= out@);
    }
    out
}

} // verus!
