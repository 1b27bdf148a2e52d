//! The library-wide laws: what holds of every lookup, of every feed of the
//! same source, and of every undefined abbreviation reference. Each is
//! stated over the same spec functions that the public contracts use.
use vstd::prelude::*;

use crate::errors::ErrView;
use crate::index::{idx_get, matches_from, seq_lt, sorted_entries, starts_with};
use crate::node::NodeView;
use crate::xdxf::{empty_dict, feed_text, fmt_node, fmt_seq, lookup_spec, DictView, FmtSt};

verus! {

/// A lookup with a prefix of fewer than three characters yields nothing,
/// whatever the index holds.
pub proof fn lemma_lookup_short_prefix(dict: Seq<(Seq<char>, Seq<char>)>, p: Seq<char>)
    requires
        p.len() < 3,
    ensures
        lookup_spec(dict, p) == Seq::<(Seq<char>, Seq<char>)>::empty(),
{
}

/// Every entry that a prefix query selects starts with the prefix, comes
/// from the index, and the selection is strictly ascending by headword.
pub proof fn lemma_matches_from_sorted(s: Seq<(Seq<char>, Seq<char>)>, p: Seq<char>, i: int)
    requires
        sorted_entries(s),
        0 <= i <= s.len(),
    ensures
        forall|x: int|
            0 <= x < matches_from(s, p, i).len() ==> starts_with(
                #[trigger] matches_from(s, p, i)[x].0,
                p,
            ),
        forall|x: int|
            0 <= x < matches_from(s, p, i).len() ==> exists|j: int|
                i <= j < s.len() && #[trigger] matches_from(s, p, i)[x] == #[trigger] s[j],
        forall|x: int, y: int|
            0 <= x < y < matches_from(s, p, i).len() ==> seq_lt(
                #[trigger] matches_from(s, p, i)[x].0,
                #[trigger] matches_from(s, p, i)[y].0,
            ),
    decreases s.len() - i,
{
    if 0 <= i && i < s.len() {
        lemma_matches_from_sorted(s, p, i + 1);
        let r = matches_from(s, p, i);
        let r1 = matches_from(s, p, i + 1);
        if starts_with(s[i].0, p) {
            assert(r == seq![s[i]] + r1);
            assert(forall|x: int| 0 <= x < r1.len() ==> r[x + 1] == #[trigger] r1[x]);
            assert forall|x: int| #![trigger r[x]] 0 <= x < r.len() implies exists|j: int|
                i <= j < s.len() && r[x] == #[trigger] s[j] by {
                if x == 0 {
                    assert(r[0] == s[i]);
                } else {
                    let j = choose|j: int| i + 1 <= j < s.len() && r1[x - 1] == s[j];
                    assert(r[x] == s[j]);
                }
            }
            assert forall|x: int, y: int| 0 <= x < y < r.len() implies seq_lt(
                r[x].0,
                r[y].0,
            ) by {
                if x == 0 {
                    let j = choose|j: int| i + 1 <= j < s.len() && r1[y - 1] == s[j];
                    assert(seq_lt(s[i].0, s[j].0));
                    assert(r[y] == s[j]);
                } else {
                    assert(seq_lt(r1[x - 1].0, r1[y - 1].0));
                }
            }
        } else {
            assert(r == r1);
        }
    }
}

/// What a lookup returns is sorted strictly ascending by headword in
/// code-point order, and every returned headword starts with the prefix.
pub proof fn lemma_lookup_sorted(dict: Seq<(Seq<char>, Seq<char>)>, p: Seq<char>)
    requires
        sorted_entries(dict),
    ensures
        forall|x: int|
            0 <= x < lookup_spec(dict, p).len() ==> starts_with(
                #[trigger] lookup_spec(dict, p)[x].0,
                p,
            ),
        forall|x: int, y: int|
            0 <= x < y < lookup_spec(dict, p).len() ==> seq_lt(
                #[trigger] lookup_spec(dict, p)[x].0,
                #[trigger] lookup_spec(dict, p)[y].0,
            ),
{
    if p.len() >= 3 {
        lemma_matches_from_sorted(dict, p, 0);
    }
}

/// Feeding the same source into two independently created dictionaries
/// yields the same entries, so identical headwords carry identical rendered
/// content: the whole pipeline is a function of the source text alone.
pub proof fn lemma_feed_round_trip(data: Seq<char>, d1: DictView, d2: DictView)
    requires
        feed_text(empty_dict(), data) == Ok::<DictView, ErrView>(d1),
        feed_text(empty_dict(), data) == Ok::<DictView, ErrView>(d2),
    ensures
        d1 == d2,
        forall|p: Seq<char>| lookup_spec(d1.dict, p) == lookup_spec(d2.dict, p),
{
}

/// Once the line-break phase has ended, no later node of the article
/// rekindles it: the flag stays false for the rest of the descent.
pub proof fn lemma_phase_permanent(abbr: Seq<(Seq<char>, Seq<char>)>, n: NodeView, st: FmtSt)
    requires
        !st.first_br,
    ensures
        fmt_node(abbr, n, st) matches Ok(so) ==> !so.0.first_br,
    decreases n, 0int,
{
    match n {
        NodeView::Text { text } => {},
        NodeView::Other => {},
        NodeView::Element { name, children } => {
            if name == "pos"@ {
                lemma_phase_permanent_seq(
                    abbr,
                    children,
                    FmtSt { title: st.title, first_br: false },
                    0,
                );
            } else if name == "br"@ {
            } else if name == "abr"@ {
            } else if name == "k"@ {
            } else {
                lemma_phase_permanent_seq(abbr, children, st, 0);
            }
        },
    }
}

proof fn lemma_phase_permanent_seq(
    abbr: Seq<(Seq<char>, Seq<char>)>,
    ns: Seq<NodeView>,
    st: FmtSt,
    i: int,
)
    requires
        !st.first_br,
    ensures
        fmt_seq(abbr, ns, st, i) matches Ok(so) ==> !so.0.first_br,
    decreases ns, ns.len() - i,
{
    if 0 <= i && i < ns.len() {
        match fmt_node(abbr, ns[i], st) {
            Ok(so1) => {
                lemma_phase_permanent(abbr, ns[i], st);
                lemma_phase_permanent_seq(abbr, ns, so1.0, i + 1);
            },
            Err(e) => {},
        }
    }
}

/// An abbreviation reference whose key has no table entry fails with
/// exactly that key: it never renders an empty or placeholder expansion.
pub proof fn lemma_undefined_abbreviation(
    abbr: Seq<(Seq<char>, Seq<char>)>,
    children: Seq<NodeView>,
    st: FmtSt,
    key: Seq<char>,
)
    requires
        children.len() > 0,
        children[0] == (NodeView::Text { text: key }),
        idx_get(abbr, key) is None,
    ensures
        fmt_node(abbr, NodeView::Element { name: "abr"@, children }, st) == Err::<
            (FmtSt, Seq<char>),
            ErrView,
        >(ErrView::UndefinedAbbreviation(key)),
{
    reveal_strlit("abr");
    reveal_strlit("pos");
    reveal_strlit("br");
    assert("abr"@[0] == 'a');
    assert("pos"@[0] == 'p');
    assert("br"@.len() == 2);
    assert("abr"@.len() == 3);
    assert("abr"@ != "pos"@);
    assert("abr"@ != "br"@);
}

} // verus!
