//! Text-level rewriting: the acronym reordering applied to raw source before
//! structural parsing, and the whitespace / line-break normalization applied
//! to every text node of an article.
//!
//! Normalization runs in three steps over a text node's characters:
//! 1. while the article is still in its line-break phase, the first soft-wrap
//!    run (a newline or space followed by more whitespace) is deleted and the
//!    phase ends;
//! 2. every remaining such run is replaced by the literal line-break marker;
//! 3. every line consisting entirely of spaces and tabs is emptied.
use vstd::prelude::*;

use crate::chars::{append_chars, append_range, append_str, brk, chars_to_string, is_brk, is_wsp,
    str_to_chars, wsp};

verus! {

/// The first position at or after `i` holding a character that is not
/// whitespace; the length of `s` if all of the rest is whitespace.
pub open spec fn ws_end(s: Seq<char>, i: int) -> int
    decreases s.len() - i,
{
    if 0 <= i && i < s.len() && is_wsp(s[i]) {
        ws_end(s, i + 1)
    } else {
        i
    }
}

pub proof fn lemma_ws_end(s: Seq<char>, i: int)
    requires
        0 <= i <= s.len(),
    ensures
        i <= ws_end(s, i) <= s.len(),
        forall|j: int| i <= j < ws_end(s, i) ==> is_wsp(s[j]),
        ws_end(s, i) < s.len() ==> !is_wsp(s[ws_end(s, i)]),
    decreases s.len() - i,
{
    if i < s.len() && is_wsp(s[i]) {
        lemma_ws_end(s, i + 1);
    }
}

/// A soft-wrap run starts at `i`: a newline or space followed by at least one
/// further whitespace character.
pub open spec fn lsp_at(s: Seq<char>, i: int) -> bool {
    0 <= i && i + 1 < s.len() && is_brk(s[i]) && is_wsp(s[i + 1])
}

/// The position of the first soft-wrap run at or after `i`, if any.
pub open spec fn find_lsp(s: Seq<char>, i: int) -> Option<int>
    decreases s.len() - i,
{
    if !(0 <= i && i < s.len()) {
        None
    } else if lsp_at(s, i) {
        Some(i)
    } else {
        find_lsp(s, i + 1)
    }
}

pub proof fn lemma_find_lsp(s: Seq<char>, i: int)
    requires
        0 <= i <= s.len(),
    ensures
        match find_lsp(s, i) {
            Some(j) => i <= j && lsp_at(s, j) && forall|x: int| i <= x < j ==> !lsp_at(s, x),
            None => forall|x: int| i <= x ==> !lsp_at(s, x),
        },
    decreases s.len() - i,
{
    if i < s.len() && !lsp_at(s, i) {
        lemma_find_lsp(s, i + 1);
    }
}

/// Step 1 of normalization: `s` with its first soft-wrap run deleted, or `s`
/// itself if there is none.
pub open spec fn del_first(s: Seq<char>) -> Seq<char> {
    match find_lsp(s, 0) {
        Some(j) => s.take(j) + s.skip(ws_end(s, j + 1)),
        None => s,
    }
}

/// The line-break marker emitted by normalization and by explicit break tags.
pub open spec fn br_marker() -> Seq<char> {
    "<br/>"@
}

/// Step 2 of normalization: every soft-wrap run at or after `i` replaced by
/// the line-break marker.
pub open spec fn brk_from(s: Seq<char>, i: int) -> Seq<char>
    decreases s.len() - i,
    via brk_from_dec
{
    if !(0 <= i && i < s.len()) {
        Seq::empty()
    } else if lsp_at(s, i) {
        br_marker() + brk_from(s, ws_end(s, i + 1))
    } else {
        seq![s[i]] + brk_from(s, i + 1)
    }
}

#[via_fn]
proof fn brk_from_dec(s: Seq<char>, i: int) {
    if 0 <= i && i < s.len() && lsp_at(s, i) {
        lemma_ws_end(s, i + 1);
    }
}

/// The position of the first newline at or after `i`; the length of `s` if
/// the last line is unterminated.
pub open spec fn line_end(s: Seq<char>, i: int) -> int
    decreases s.len() - i,
{
    if !(0 <= i && i < s.len()) {
        s.len() as int
    } else if s[i] == '\n' {
        i
    } else {
        line_end(s, i + 1)
    }
}

pub proof fn lemma_line_end(s: Seq<char>, i: int)
    requires
        0 <= i <= s.len(),
    ensures
        i <= line_end(s, i) <= s.len(),
        forall|j: int| i <= j < line_end(s, i) ==> s[j] != '\n',
        line_end(s, i) < s.len() ==> s[line_end(s, i)] == '\n',
    decreases s.len() - i,
{
    if i < s.len() && s[i] != '\n' {
        lemma_line_end(s, i + 1);
    }
}

/// All characters in `[i, e)` are spaces or tabs.
pub open spec fn blank_from(s: Seq<char>, i: int, e: int) -> bool
    decreases e - i,
{
    if i >= e {
        true
    } else {
        (s[i] == ' ' || s[i] == '\t') && blank_from(s, i + 1, e)
    }
}

/// The nonempty line `[i, e)` consists entirely of spaces and tabs.
pub open spec fn blank_line(s: Seq<char>, i: int, e: int) -> bool {
    i < e && blank_from(s, i, e)
}

/// Step 3 of normalization: from line start `i` on, every line consisting
/// entirely of spaces and tabs is emptied; line separators stay.
pub open spec fn strip_from(s: Seq<char>, i: int) -> Seq<char>
    decreases s.len() - i,
    via strip_from_dec
{
    if !(0 <= i <= s.len()) {
        Seq::empty()
    } else {
        let e = line_end(s, i);
        let kept = if blank_line(s, i, e) {
            Seq::<char>::empty()
        } else {
            s.subrange(i, e)
        };
        if e >= s.len() {
            kept
        } else {
            kept + seq!['\n'] + strip_from(s, e + 1)
        }
    }
}

#[via_fn]
proof fn strip_from_dec(s: Seq<char>, i: int) {
    if 0 <= i <= s.len() {
        lemma_line_end(s, i);
    }
}

/// The whole normalization of one text node: the resulting text and the
/// line-break phase after it. The phase ends exactly when a first soft-wrap
/// run was deleted.
pub open spec fn norm_ws(s: Seq<char>, first_br: bool) -> (Seq<char>, bool) {
    let s1 = if first_br {
        del_first(s)
    } else {
        s
    };
    let fb = first_br && find_lsp(s, 0) is None;
    (strip_from(brk_from(s1, 0), 0), fb)
}

/// Runtime mirror of `ws_end`.
fn ws_end_exec(s: &Vec<char>, i: usize) -> (j: usize)
    requires
        i <= s@.len(),
    ensures
        j == ws_end(s@, i as int),
        i <= j <= s@.len(),
    decreases s@.len() - i,
{
    if i < s.len() && wsp(s[i]) {
        ws_end_exec(s, i + 1)
    } else {
        i
    }
}

/// Runtime mirror of `find_lsp` starting at the front.
fn find_lsp_exec(s: &Vec<char>) -> (r: Option<usize>)
    ensures
        match r {
            Some(j) => find_lsp(s@, 0) == Some(j as int) && j < s@.len(),
            None => find_lsp(s@, 0) is None,
        },
{
    let mut i: usize = 0;
    while i < s.len()
        invariant
            i <= s@.len(),
            find_lsp(s@, 0) == find_lsp(s@, i as int),
        decreases s@.len() - i,
    {
        let hit = if i + 1 < s.len() {
            brk(s[i]) && wsp(s[i + 1])
        } else {
            false
        };
        if hit {
            return Some(i);
        }
        i += 1;
    }
    None
}

/// Runtime mirror of `line_end`.
fn line_end_exec(s: &Vec<char>, i: usize) -> (e: usize)
    requires
        i <= s@.len(),
    ensures
        e == line_end(s@, i as int),
        i <= e <= s@.len(),
    decreases s@.len() - i,
{
    if i < s.len() {
        if s[i] == '\n' {
            i
        } else {
            line_end_exec(s, i + 1)
        }
    } else {
        s.len()
    }
}

/// Runtime mirror of `blank_from`.
fn blank_exec(s: &Vec<char>, i: usize, e: usize) -> (b: bool)
    requires
        i <= e <= s@.len(),
    ensures
        b == blank_from(s@, i as int, e as int),
    decreases e - i,
{
    if i >= e {
        true
    } else if s[i] == ' ' || s[i] == '\t' {
        blank_exec(s, i + 1, e)
    } else {
        false
    }
}

/// Step 1 at runtime: the text with its first soft-wrap run deleted, and
/// whether one was found.
fn del_first_exec(s: &Vec<char>) -> (r: (Vec<char>, bool))
    ensures
        r.0@ == del_first(s@),
        r.1 == (find_lsp(s@, 0) is Some),
{
    match find_lsp_exec(s) {
        Some(j) => {
            proof {
                lemma_find_lsp(s@, 0);
            }
            let n = s.len();
            let e = ws_end_exec(s, j + 1);
            let mut out: Vec<char> = Vec::new();
            append_range(&mut out, s, 0, j);
            append_range(&mut out, s, e, s.len());
            proof {
                assert(s@.subrange(0, j as int) =~= s@.take(j as int));
                assert(s@.subrange(e as int, s@.len() as int) =~= s@.skip(e as int));
            }
            (out, true)
        },
        None => {
            let mut out: Vec<char> = Vec::new();
            append_chars(&mut out, s);
            (out, false)
        },
    }
}

/// Step 2 at runtime: every soft-wrap run replaced by the line-break marker.
fn brk_all_exec(s: &Vec<char>) -> (r: Vec<char>)
    ensures
        r@ == brk_from(s@, 0),
{
    let mut out: Vec<char> = Vec::new();
    let mut i: usize = 0;
    while i < s.len()
        invariant
            i <= s@.len(),
            brk_from(s@, 0) == out@ + brk_from(s@, i as int),
        decreases s@.len() - i,
    {
        let hit = if i + 1 < s.len() {
            brk(s[i]) && wsp(s[i + 1])
        } else {
            false
        };
        proof {
            assert(hit == lsp_at(s@, i as int));
        }
        if hit {
            let ghost prev = out@;
            append_str(&mut out, "<br/>");
            let e = ws_end_exec(s, i + 1);
            proof {
                assert(prev + (br_marker() + brk_from(s@, e as int)) =~= (prev + br_marker())
                    + brk_from(s@, e as int));
            }
            i = e;
        } else {
            let ghost prev = out@;
            out.push(s[i]);
            proof {
                assert(prev + (seq![s@[i as int]] + brk_from(s@, i + 1 as int)) =~= prev.push(
                    s@[i as int],
                ) + brk_from(s@, i + 1 as int));
            }
            i += 1;
        }
    }
    proof {
        assert(out@ + brk_from(s@, s@.len() as int) =~= out@);
    }
    out
}

/// Step 3 at runtime: every all-blank line emptied.
fn strip_exec(s: &Vec<char>) -> (r: Vec<char>)
    ensures
        r@ == strip_from(s@, 0),
{
    let mut out: Vec<char> = Vec::new();
    let mut i: usize = 0;
    loop
        invariant_except_break
            i <= s@.len(),
            strip_from(s@, 0) == out@ + strip_from(s@, i as int),
        ensures
            out@ == strip_from(s@, 0),
        decreases s@.len() - i,
    {
        let e = line_end_exec(s, i);
        let is_blank = i < e && blank_exec(s, i, e);
        let ghost prev = out@;
        if !is_blank {
            append_range(&mut out, s, i, e);
        }
        let ghost kept = if blank_line(s@, i as int, e as int) {
            Seq::<char>::empty()
        } else {
            s@.subrange(i as int, e as int)
        };
        proof {
            assert(out@ =~= prev + kept);
        }
        if e < s.len() {
            out.push('\n');
            proof {
                assert(prev + (kept + seq!['\n'] + strip_from(s@, e + 1 as int)) =~= out@
                    + strip_from(s@, e + 1 as int));
            }
            i = e + 1;
        } else {
            proof {
                assert(strip_from(s@, 0) =~= out@);
            }
            break;
        }
    }
    out
}

/// The whole normalization at runtime over characters: returns the rewritten
/// text and the line-break phase after it.
pub fn norm_ws_exec(s: &Vec<char>, first_br: bool) -> (r: (Vec<char>, bool))
    ensures
        r.0@ == norm_ws(s@, first_br).0,
        r.1 == norm_ws(s@, first_br).1,
{
    let (s1, fb): (Vec<char>, bool) = if first_br {
        let (t, found) = del_first_exec(s);
        (t, !found)
    } else {
        let mut t: Vec<char> = Vec::new();
        append_chars(&mut t, s);
        (t, false)
    };
    let s2 = brk_all_exec(&s1);
    let s3 = strip_exec(&s2);
    (s3, fb)
}

/// The first position at or before `j` such that everything from it up to
/// `j` is whitespace.
pub open spec fn ws_rbegin(s: Seq<char>, j: int) -> int
    decreases j,
{
    if 0 < j <= s.len() && is_wsp(s[j - 1]) {
        ws_rbegin(s, j - 1)
    } else {
        j
    }
}

/// `s` with leading and trailing whitespace removed.
pub open spec fn trim_spec(s: Seq<char>) -> Seq<char> {
    let a = ws_end(s, 0);
    let b = ws_rbegin(s, s.len() as int);
    if a <= b {
        s.subrange(a, b)
    } else {
        Seq::empty()
    }
}

/// Runtime mirror of `ws_rbegin`.
fn ws_rbegin_exec(s: &Vec<char>, j: usize) -> (r: usize)
    requires
        j <= s@.len(),
    ensures
        r == ws_rbegin(s@, j as int),
        r <= j,
    decreases j,
{
    if j > 0 && wsp(s[j - 1]) {
        ws_rbegin_exec(s, j - 1)
    } else {
        j
    }
}

/// Trims leading and trailing whitespace at runtime.
pub fn trim_exec(s: &Vec<char>) -> (r: Vec<char>)
    ensures
        r@ == trim_spec(s@),
{
    let a = ws_end_exec(s, 0);
    let b = ws_rbegin_exec(s, s.len());
    let mut out: Vec<char> = Vec::new();
    if a <= b {
        append_range(&mut out, s, a, b);
    }
    proof {
        if !(a <= b) {
            assert(out@ =~= trim_spec(s@));
        }
    }
    out
}

/// No soft-wrap run occurs anywhere in `s`.
pub open spec fn no_lsp(s: Seq<char>) -> bool {
    forall|x: int| !lsp_at(s, x)
}

/// Every line from line start `i` on is kept by the blank-line step: none
/// is a nonempty all-blank line.
pub open spec fn no_blank_from(s: Seq<char>, i: int) -> bool
    decreases s.len() - i,
    via no_blank_from_dec
{
    if !(0 <= i <= s.len()) {
        true
    } else {
        let e = line_end(s, i);
        !blank_line(s, i, e) && (e >= s.len() || no_blank_from(s, e + 1))
    }
}

#[via_fn]
proof fn no_blank_from_dec(s: Seq<char>, i: int) {
    if 0 <= i <= s.len() {
        lemma_line_end(s, i);
    }
}

/// A soft-wrap opener is itself whitespace.
proof fn lemma_brk_is_wsp(c: char)
    ensures
        is_brk(c) ==> is_wsp(c),
{
}

/// The line-break marker holds no whitespace at all, and starts and ends
/// with angle brackets.
proof fn lemma_br_marker_clean()
    ensures
        br_marker().len() == 5,
        br_marker()[0] == '<',
        forall|x: int| 0 <= x < br_marker().len() ==> !is_wsp(#[trigger] br_marker()[x]),
        no_lsp(br_marker()),
{
    reveal_strlit("<br/>");
    assert(br_marker().len() == 5);
    assert(!is_wsp(br_marker()[0]));
    assert(!is_wsp(br_marker()[1]));
    assert(!is_wsp(br_marker()[2]));
    assert(!is_wsp(br_marker()[3]));
    assert(!is_wsp(br_marker()[4]));
    assert forall|x: int| 0 <= x < br_marker().len() implies !is_wsp(
        #[trigger] br_marker()[x],
    ) by {
        if x == 0 {
        } else if x == 1 {
        } else if x == 2 {
        } else if x == 3 {
        } else {
            assert(x == 4);
        }
    }
    assert forall|x: int| !lsp_at(br_marker(), x) by {
        if 0 <= x && x + 1 < br_marker().len() {
            lemma_brk_is_wsp(br_marker()[x]);
        }
    }
}

/// Two match-free pieces concatenate to a match-free whole when no run can
/// form across the seam.
proof fn lemma_lsp_concat(a: Seq<char>, b: Seq<char>)
    requires
        no_lsp(a),
        no_lsp(b),
        a.len() > 0 && b.len() > 0 ==> !(is_brk(a.last()) && is_wsp(b.first())),
    ensures
        no_lsp(a + b),
{
    assert forall|x: int| !lsp_at(a + b, x) by {
        if 0 <= x && x + 1 < a.len() + b.len() {
            if x + 1 < a.len() {
                assert((a + b)[x] == a[x] && (a + b)[x + 1] == a[x + 1]);
                assert(!lsp_at(a, x));
            } else if x >= a.len() {
                assert((a + b)[x] == b[x - a.len()] && (a + b)[x + 1] == b[x + 1 - a.len()]);
                assert(!lsp_at(b, x - a.len()));
            } else {
                assert(x == a.len() - 1);
                assert((a + b)[x] == a.last() && (a + b)[x + 1] == b.first());
            }
        }
    }
}

/// The run-replacement step leaves no soft-wrap run behind, and its output
/// opens with the marker or with a copied, match-free character.
proof fn lemma_brk_from_clean(s: Seq<char>, i: int)
    requires
        0 <= i,
    ensures
        no_lsp(brk_from(s, i)),
        brk_from(s, i).len() > 0 ==> brk_from(s, i)[0] == '<' || (i < s.len() && brk_from(s, i)[0]
            == s[i] && !lsp_at(s, i)),
    decreases s.len() - i,
{
    lemma_br_marker_clean();
    if i < s.len() {
        if lsp_at(s, i) {
            lemma_ws_end(s, i + 1);
            let e = ws_end(s, i + 1);
            lemma_brk_from_clean(s, e);
            let rest = brk_from(s, e);
            if rest.len() > 0 {
                assert(!(is_brk(br_marker().last()) && is_wsp(rest.first()))) by {
                    lemma_brk_is_wsp(br_marker().last());
                }
            }
            lemma_lsp_concat(br_marker(), rest);
            assert(brk_from(s, i)[0] == br_marker()[0]);
        } else {
            lemma_brk_from_clean(s, i + 1);
            let rest = brk_from(s, i + 1);
            let head = seq![s[i]];
            assert(no_lsp(head));
            if rest.len() > 0 {
                assert(!(is_brk(head.last()) && is_wsp(rest.first()))) by {
                    if rest.first() == '<' {
                        assert(!is_wsp('<'));
                    } else {
                        assert(i + 1 < s.len() && rest.first() == s[i + 1]);
                        if is_brk(s[i]) && is_wsp(s[i + 1]) {
                            assert(lsp_at(s, i));
                        }
                    }
                }
            }
            lemma_lsp_concat(head, rest);
            assert(brk_from(s, i)[0] == s[i]);
        }
    }
}

/// Where no run occurs from `i` on, the run-replacement step copies.
proof fn lemma_brk_id(s: Seq<char>, i: int)
    requires
        0 <= i <= s.len(),
        no_lsp(s),
    ensures
        brk_from(s, i) == s.skip(i),
    decreases s.len() - i,
{
    if i < s.len() {
        lemma_brk_id(s, i + 1);
        assert(seq![s[i]] + s.skip(i + 1) =~= s.skip(i));
    } else {
        assert(brk_from(s, i) =~= s.skip(i));
    }
}

/// Where no line is blank from `i` on, the blank-line step copies.
proof fn lemma_strip_id(s: Seq<char>, i: int)
    requires
        0 <= i <= s.len(),
        no_blank_from(s, i),
    ensures
        strip_from(s, i) == s.skip(i),
    decreases s.len() - i,
{
    let e = line_end(s, i);
    lemma_line_end(s, i);
    if e >= s.len() {
        assert(strip_from(s, i) =~= s.skip(i));
    } else {
        lemma_strip_id(s, e + 1);
        assert(s.subrange(i, e) + seq!['\n'] + s.skip(e + 1) =~= s.skip(i));
    }
}

/// No soft-wrap run survives in any suffix of a match-free text.
proof fn lemma_lsp_skip(s: Seq<char>, k: int)
    requires
        0 <= k <= s.len(),
        no_lsp(s),
    ensures
        no_lsp(s.skip(k)),
{
    assert forall|x: int| !lsp_at(s.skip(k), x) by {
        if 0 <= x && x + 1 < s.skip(k).len() {
            assert(s.skip(k)[x] == s[k + x] && s.skip(k)[x + 1] == s[k + x + 1]);
            assert(!lsp_at(s, k + x));
        }
    }
}

/// In a match-free text, every line opened by a line separator is kept, and
/// the blank-line step copies the rest of the text from there on.
proof fn lemma_strip_tail(u: Seq<char>, j: int)
    requires
        no_lsp(u),
        0 < j <= u.len(),
        u[j - 1] == '\n',
    ensures
        strip_from(u, j) == u.skip(j),
        no_blank_from(u, j),
    decreases u.len() - j,
{
    let e = line_end(u, j);
    lemma_line_end(u, j);
    if blank_line(u, j, e) {
        assert(u[j] == ' ' || u[j] == '\t');
        assert(lsp_at(u, j - 1));
    }
    if e >= u.len() {
        assert(strip_from(u, j) =~= u.skip(j));
    } else {
        lemma_strip_tail(u, e + 1);
        assert(u.subrange(j, e) + seq!['\n'] + u.skip(e + 1) =~= u.skip(j));
    }
}

/// The blank-line step over a match-free text yields a text that is still
/// match-free and holds no blank line.
proof fn lemma_strip_props(u: Seq<char>)
    requires
        no_lsp(u),
    ensures
        no_lsp(strip_from(u, 0)),
        no_blank_from(strip_from(u, 0), 0),
{
    let e = line_end(u, 0);
    lemma_line_end(u, 0);
    let t = strip_from(u, 0);
    if blank_line(u, 0, e) {
        if e >= u.len() {
            assert(t =~= Seq::<char>::empty());
            assert(no_lsp(t));
        } else {
            lemma_strip_tail(u, e + 1);
            assert(t =~= u.skip(e));
            lemma_lsp_skip(u, e);
            assert(t[0] == '\n');
            assert(line_end(t, 0) == 0);
            assert(!blank_line(t, 0, 0));
            lemma_no_blank_skip(u, e, t);
        }
    } else {
        if e >= u.len() {
            assert(t =~= u);
        } else {
            lemma_strip_tail(u, e + 1);
            assert(u.subrange(0, e) + seq!['\n'] + u.skip(e + 1) =~= u);
        }
        assert(t == u);
    }
}

/// Line structure is unchanged by dropping a prefix that ends just before a
/// line separator: what remains of the blank-line discipline transfers.
proof fn lemma_line_end_skip(u: Seq<char>, k: int, i: int)
    requires
        0 <= k <= u.len(),
        0 <= i <= u.len() - k,
    ensures
        line_end(u.skip(k), i) == line_end(u, k + i) - k,
    decreases u.len() - k - i,
{
    if i < u.skip(k).len() {
        assert(u.skip(k)[i] == u[k + i]);
        if u[k + i] != '\n' {
            lemma_line_end_skip(u, k, i + 1);
        }
    }
}

proof fn lemma_blank_from_skip(u: Seq<char>, k: int, i: int, e: int)
    requires
        0 <= k <= u.len(),
        0 <= i <= e,
        k + e <= u.len(),
    ensures
        blank_from(u.skip(k), i, e) == blank_from(u, k + i, k + e),
    decreases e - i,
{
    if i < e {
        assert(u.skip(k)[i] == u[k + i]);
        lemma_blank_from_skip(u, k, i + 1, e);
    }
}

/// The suffix of a text opened at a line separator keeps every line that
/// the whole text keeps.
proof fn lemma_no_blank_skip(u: Seq<char>, k: int, t: Seq<char>)
    requires
        0 <= k < u.len(),
        u[k] == '\n',
        no_lsp(u),
        t == u.skip(k),
    ensures
        no_blank_from(t, 0),
{
    assert(t[0] == '\n');
    assert(line_end(t, 0) == 0);
    assert(!blank_line(t, 0, 0));
    if t.len() > 1 {
        lemma_no_blank_shift(u, k, 1);
    } else {
        assert(line_end(t, 1) == 1);
        assert(no_blank_from(t, 1));
    }
    assert(no_blank_from(t, 0));
}

/// The blank-line discipline of a suffix agrees with that of the whole, at
/// corresponding line starts.
proof fn lemma_no_blank_shift(u: Seq<char>, k: int, i: int)
    requires
        0 <= k <= u.len(),
        1 <= i,
        k + i <= u.len(),
        u[k + i - 1] == '\n',
        no_lsp(u),
    ensures
        no_blank_from(u.skip(k), i),
    decreases u.len() - k - i,
{
    let t = u.skip(k);
    let e = line_end(t, i);
    lemma_line_end(t, i);
    lemma_line_end_skip(u, k, i);
    if blank_line(t, i, e) {
        assert(t[i] == ' ' || t[i] == '\t');
        assert(t[i] == u[k + i] && t[i - 1] == u[k + i - 1]);
        assert(lsp_at(u, k + i - 1));
    }
    if e < t.len() {
        assert(t[e] == '\n' && t[e] == u[k + e]);
        lemma_no_blank_shift(u, k, e + 1);
    }
}

/// Re-running the normalization on its own output, with the line-break
/// phase over, changes nothing: the rewrite is idempotent.
pub proof fn lemma_norm_ws_idempotent(s: Seq<char>, first_br: bool)
    ensures
        norm_ws(norm_ws(s, first_br).0, false).0 == norm_ws(s, first_br).0,
{
    let s1 = if first_br {
        del_first(s)
    } else {
        s
    };
    let u = brk_from(s1, 0);
    let t = strip_from(u, 0);
    lemma_brk_from_clean(s1, 0);
    lemma_strip_props(u);
    lemma_brk_id(t, 0);
    assert(t.skip(0) =~= t);
    lemma_strip_id(t, 0);
    assert(norm_ws(t, false).0 == strip_from(brk_from(t, 0), 0));
    assert(brk_from(t, 0) == t);
}

/// The whole normalization over strings, threading the article's line-break
/// phase through the flag.
pub fn replace_sps(s: &str, first_br: &mut bool) -> (r: String)
    ensures
        r@ == norm_ws(s@, *old(first_br)).0,
        *final(first_br) == norm_ws(s@, *old(first_br)).1,
{
    let v = str_to_chars(s);
    let (t, fb) = norm_ws_exec(&v, *first_br);
    *first_br = fb;
    chars_to_string(&t)
}

} // verus!
