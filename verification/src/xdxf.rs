//! The dictionary facade and the article transformation engine: document
//! dispatch, abbreviation-table construction, and the recursive
//! markup-to-output conversion that renders one article and indexes it by
//! headword.
use vstd::prelude::*;

use crate::errors::{err, ErrView, XdxfError};
use crate::node::{lemma_node_views, node_view, node_views, Node, NodeView};
use crate::index::{idx_get, idx_insert, matches_from, StrIndex};
use crate::text::{norm_ws, trim_spec};
use crate::acro::acro_reorder;
use crate::chars::all_wsp;

verus! {

/// The transient per-article state: the headword, set exactly once by the
/// first headword marker, and the line-break phase flag shared across the
/// whole recursive descent.
pub ghost struct FmtSt {
    pub title: Option<Seq<char>>,
    pub first_br: bool,
}

/// The runtime per-article state.
pub struct FmtState {
    pub title: Option<Vec<char>>,
    pub first_br: bool,
}

impl View for FmtState {
    type V = FmtSt;

    open spec fn view(&self) -> FmtSt {
        FmtSt {
            title: match self.title {
                Some(t) => Some(t@),
                None => None,
            },
            first_br: self.first_br,
        }
    }
}

/// The description carried by every shape failure of a scalar-value node.
pub open spec fn invalid_node_msg() -> Seq<char> {
    "Invalid node provided"@
}

/// Effective text of a node expected to hold a scalar value: a text node's
/// own text, or an element's first child's text.
pub open spec fn node_val(n: NodeView) -> Result<Seq<char>, ErrView> {
    match n {
        NodeView::Text { text } => Ok(text),
        NodeView::Element { name, children } => if children.len() > 0 {
            match children[0] {
                NodeView::Text { text } => Ok(text),
                _ => Err(ErrView::Structure(invalid_node_msg())),
            }
        } else {
            Err(ErrView::Structure(invalid_node_msg()))
        },
        NodeView::Other => Err(ErrView::Structure(invalid_node_msg())),
    }
}

/// The rendering of one node of an article, threading the per-article state:
/// text is normalized; a headword marker sets the title and emits nothing; a
/// part-of-speech wrapper ends the line-break phase and wraps its children;
/// an abbreviation reference ends the phase and expands through the table;
/// an explicit break emits the marker only while the phase lasts, and ends
/// it; a nested article wrapper recurses transparently; any other element is
/// passed through by name only; comments contribute nothing.
pub open spec fn fmt_node(
    abbr: Seq<(Seq<char>, Seq<char>)>,
    n: NodeView,
    st: FmtSt,
) -> Result<(FmtSt, Seq<char>), ErrView>
    decreases n, 0int,
{
    match n {
        NodeView::Text { text } => {
            let (out, fb) = norm_ws(text, st.first_br);
            Ok((FmtSt { title: st.title, first_br: fb }, out))
        },
        NodeView::Other => Ok((st, Seq::empty())),
        NodeView::Element { name, children } => {
            if name == "pos"@ {
                match fmt_seq(abbr, children, FmtSt { title: st.title, first_br: false }, 0) {
                    Ok((st2, out)) => Ok(
                        (st2, "<span class='partofspeech'>"@ + out + "</span>"@),
                    ),
                    Err(e) => Err(e),
                }
            } else if name == "br"@ {
                if st.first_br {
                    Ok((FmtSt { title: st.title, first_br: false }, crate::text::br_marker()))
                } else {
                    Ok((st, Seq::empty()))
                }
            } else if name == "abr"@ {
                if children.len() == 0 {
                    Err(ErrView::Structure(invalid_node_msg()))
                } else {
                    match children[0] {
                        NodeView::Text { text: key } => match idx_get(abbr, key) {
                            Some(exp) => Ok(
                                (
                                    FmtSt { title: st.title, first_br: false },
                                    "<acronym title='"@ + exp + "'>"@ + key + "</acronym>"@,
                                ),
                            ),
                            None => Err(ErrView::UndefinedAbbreviation(key)),
                        },
                        _ => Err(ErrView::Structure(invalid_node_msg())),
                    }
                }
            } else if name == "k"@ {
                if children.len() == 0 {
                    Err(ErrView::Structure(invalid_node_msg()))
                } else {
                    match node_val(children[0]) {
                        Ok(t) => Ok(
                            (
                                FmtSt {
                                    title: if st.title is None {
                                        Some(t)
                                    } else {
                                        st.title
                                    },
                                    first_br: st.first_br,
                                },
                                Seq::empty(),
                            ),
                        ),
                        Err(e) => Err(e),
                    }
                }
            } else if name == "ar"@ {
                fmt_seq(abbr, children, st, 0)
            } else {
                match fmt_seq(abbr, children, st, 0) {
                    Ok((st2, out)) => Ok(
                        (st2, seq!['<'] + name + seq!['>'] + out + seq!['<', '/'] + name + seq![
                            '>',
                        ]),
                    ),
                    Err(e) => Err(e),
                }
            }
        },
    }
}

/// The rendering of the children from position `i` on, outputs concatenated
/// in order, state threaded left to right; the first failure aborts.
pub open spec fn fmt_seq(
    abbr: Seq<(Seq<char>, Seq<char>)>,
    ns: Seq<NodeView>,
    st: FmtSt,
    i: int,
) -> Result<(FmtSt, Seq<char>), ErrView>
    decreases ns, ns.len() - i,
{
    if !(0 <= i && i < ns.len()) {
        Ok((st, Seq::empty()))
    } else {
        match fmt_node(abbr, ns[i], st) {
            Ok((st1, out1)) => match fmt_seq(abbr, ns, st1, i + 1) {
                Ok((st2, out2)) => Ok((st2, out1 + out2)),
                Err(e) => Err(e),
            },
            Err(e) => Err(e),
        }
    }
}

/// One article rendered whole: the headword (empty if no marker was found)
/// and the content, starting in the line-break phase with no title.
pub open spec fn fmt_article(abbr: Seq<(Seq<char>, Seq<char>)>, n: NodeView) -> Result<
    (Seq<char>, Seq<char>),
    ErrView,
> {
    match fmt_node(abbr, n, FmtSt { title: None, first_br: true }) {
        Ok((st, out)) => Ok(
            (
                match st.title {
                    Some(t) => t,
                    None => Seq::empty(),
                },
                out,
            ),
        ),
        Err(e) => Err(e),
    }
}

/// One abbreviation definition: among the children, whitespace-only text is
/// ignored; exactly two element children must remain, a key and a value in
/// either order; their effective texts become a table entry.
pub open spec fn add_abbr(
    abbr: Seq<(Seq<char>, Seq<char>)>,
    children: Seq<NodeView>,
) -> Result<Seq<(Seq<char>, Seq<char>)>, ErrView> {
    match abbr_elems(children, 0) {
        Ok(es) => if es.len() == 2 {
            abbr_pair(abbr, es[0], es[1])
        } else {
            Err(ErrView::Structure("Unexpected abbreviation child length"@))
        },
        Err(e) => Err(e),
    }
}

/// The element children of an abbreviation definition, from `i` on;
/// whitespace-only text between them is ignored, anything else is a shape
/// failure.
pub open spec fn abbr_elems(children: Seq<NodeView>, i: int) -> Result<Seq<NodeView>, ErrView>
    decreases children.len() - i,
{
    if !(0 <= i && i < children.len()) {
        Ok(Seq::empty())
    } else {
        match children[i] {
            NodeView::Element { name, children: c } => match abbr_elems(children, i + 1) {
                Ok(rest) => Ok(seq![children[i]] + rest),
                Err(e) => Err(e),
            },
            NodeView::Text { text } => if all_wsp(text) {
                abbr_elems(children, i + 1)
            } else {
                Err(ErrView::Structure("Unexpected abbreviation content"@))
            },
            NodeView::Other => Err(ErrView::Structure("Unexpected abbreviation content"@)),
        }
    }
}

/// The key and value of one definition, accepted in either order.
pub open spec fn abbr_pair(
    abbr: Seq<(Seq<char>, Seq<char>)>,
    first: NodeView,
    second: NodeView,
) -> Result<Seq<(Seq<char>, Seq<char>)>, ErrView> {
    let names = (elem_name(first), elem_name(second));
    if names.0 == Some("k"@) && names.1 == Some("v"@) {
        abbr_entry(abbr, first, second)
    } else if names.0 == Some("v"@) && names.1 == Some("k"@) {
        abbr_entry(abbr, second, first)
    } else {
        Err(ErrView::Structure("Unexpected abbreviation content"@))
    }
}

/// The local tag name of an element node.
pub open spec fn elem_name(n: NodeView) -> Option<Seq<char>> {
    match n {
        NodeView::Element { name, children } => Some(name),
        _ => None,
    }
}

/// The table with the definition's key mapped to its value.
pub open spec fn abbr_entry(
    abbr: Seq<(Seq<char>, Seq<char>)>,
    k: NodeView,
    v: NodeView,
) -> Result<Seq<(Seq<char>, Seq<char>)>, ErrView> {
    match node_val(k) {
        Ok(key) => match node_val(v) {
            Ok(val) => Ok(idx_insert(abbr, key, val)),
            Err(e) => Err(e),
        },
        Err(e) => Err(e),
    }
}

/// An abbreviations block: each element child must be a definition; text
/// children are ignored; anything else is a shape failure.
pub open spec fn feed_abbrs(
    abbr: Seq<(Seq<char>, Seq<char>)>,
    ns: Seq<NodeView>,
    i: int,
) -> Result<Seq<(Seq<char>, Seq<char>)>, ErrView>
    decreases ns.len() - i,
{
    if !(0 <= i && i < ns.len()) {
        Ok(abbr)
    } else {
        match ns[i] {
            NodeView::Element { name, children } => if name == "abr_def"@ {
                match add_abbr(abbr, children) {
                    Ok(a) => feed_abbrs(a, ns, i + 1),
                    Err(e) => Err(e),
                }
            } else {
                Err(ErrView::Structure("Unexpected abbreviations child"@))
            },
            NodeView::Text { text } => feed_abbrs(abbr, ns, i + 1),
            NodeView::Other => Err(ErrView::Structure("Unexpected abbreviations child"@)),
        }
    }
}

/// The mathematical value of a dictionary: its prefix index and its
/// abbreviation table, each a sequence of key-value entries sorted by key.
pub ghost struct DictView {
    pub dict: Seq<(Seq<char>, Seq<char>)>,
    pub abbr: Seq<(Seq<char>, Seq<char>)>,
}

/// The children of a document element routed in order: abbreviations blocks
/// extend the table, articles are rendered and indexed, anything else is
/// ignored.
pub open spec fn feed_root(d: DictView, ns: Seq<NodeView>, i: int) -> Result<DictView, ErrView>
    decreases ns.len() - i,
{
    if !(0 <= i && i < ns.len()) {
        Ok(d)
    } else {
        match ns[i] {
            NodeView::Element { name, children } => if name == "abbreviations"@ {
                match feed_abbrs(d.abbr, children, 0) {
                    Ok(a) => feed_root(DictView { dict: d.dict, abbr: a }, ns, i + 1),
                    Err(e) => Err(e),
                }
            } else if name == "ar"@ {
                match fmt_article(d.abbr, ns[i]) {
                    Ok(tc) => feed_root(
                        DictView { dict: idx_insert(d.dict, tc.0, tc.1), abbr: d.abbr },
                        ns,
                        i + 1,
                    ),
                    Err(e) => Err(e),
                }
            } else {
                feed_root(d, ns, i + 1)
            },
            _ => feed_root(d, ns, i + 1),
        }
    }
}

/// The top-level children of a parsed source: every element literally named
/// `xdxf` contributes its children; every other child contributes nothing.
pub open spec fn feed_doc(d: DictView, roots: Seq<NodeView>, i: int) -> Result<DictView, ErrView>
    decreases roots.len() - i,
{
    if !(0 <= i && i < roots.len()) {
        Ok(d)
    } else {
        match roots[i] {
            NodeView::Element { name, children } => if name == "xdxf"@ {
                match feed_root(d, children, 0) {
                    Ok(d2) => feed_doc(d2, roots, i + 1),
                    Err(e) => Err(e),
                }
            } else {
                feed_doc(d, roots, i + 1)
            },
            _ => feed_doc(d, roots, i + 1),
        }
    }
}

/// One whole source fed into a dictionary: the raw text is preprocessed by
/// the acronym reordering, trimmed, structurally parsed, and its top-level
/// children dispatched; a parse failure surfaces as a malformed-input error.
pub open spec fn feed_text(d: DictView, data: Seq<char>) -> Result<DictView, ErrView> {
    let pre = trim_spec(acro_reorder(data));
    match crate::parse::parse_of(pre) {
        Some(roots) => feed_doc(d, roots, 0),
        None => Err(ErrView::Malformed),
    }
}

/// The value of a fresh dictionary.
pub open spec fn empty_dict() -> DictView {
    DictView { dict: Seq::empty(), abbr: Seq::empty() }
}

/// What a lookup yields: nothing for a prefix shorter than three
/// characters, else every entry whose headword starts with the prefix, in
/// ascending headword order.
pub open spec fn lookup_spec(dict: Seq<(Seq<char>, Seq<char>)>, p: Seq<char>) -> Seq<
    (Seq<char>, Seq<char>),
> {
    if p.len() < 3 {
        Seq::empty()
    } else {
        matches_from(dict, p, 0)
    }
}

/// The mathematical value of a runtime formatting result.
pub open spec fn fmt_res_view(r: Result<(FmtState, Vec<char>), XdxfError>) -> Result<
    (FmtSt, Seq<char>),
    ErrView,
> {
    match r {
        Ok(so) => Ok((so.0@, so.1@)),
        Err(e) => Err(e@),
    }
}

/// The mathematical value of a runtime scalar-text result.
pub open spec fn chars_res_view(r: Result<Vec<char>, XdxfError>) -> Result<Seq<char>, ErrView> {
    match r {
        Ok(v) => Ok(v@),
        Err(e) => Err(e@),
    }
}

/// A sequence of outputs prepended to a formatting result's output.
pub open spec fn fmt_prepend(o: Seq<char>, r: Result<(FmtSt, Seq<char>), ErrView>) -> Result<
    (FmtSt, Seq<char>),
    ErrView,
> {
    match r {
        Ok(so) => Ok((so.0, o + so.1)),
        Err(e) => Err(e),
    }
}

/// A sequence of already-collected elements prepended to an element-
/// collection result.
pub open spec fn elems_prepend(o: Seq<NodeView>, r: Result<Seq<NodeView>, ErrView>) -> Result<
    Seq<NodeView>,
    ErrView,
> {
    match r {
        Ok(rest) => Ok(o + rest),
        Err(e) => Err(e),
    }
}

/// Whether a node is an element with the given local tag name.
fn elem_name_is(n: &Node, lit: &str) -> (b: bool)
    ensures
        b == (elem_name(n@) == Some(lit@)),
{
    match n {
        Node::Element { name, children } => crate::chars::str_eq(name.as_str(), lit),
        _ => false,
    }
}

/// Effective text of a node expected to hold a scalar value, at runtime.
pub fn nodeval(n: &Node) -> (r: Result<Vec<char>, XdxfError>)
    ensures
        chars_res_view(r) == node_val(n@),
{
    match n {
        Node::Text { text } => Ok(crate::chars::str_to_chars(text.as_str())),
        Node::Element { name, children } => {
            proof {
                lemma_node_views(children@);
            }
            if children.len() > 0 {
                match &children[0] {
                    Node::Text { text } => Ok(crate::chars::str_to_chars(text.as_str())),
                    _ => Err(crate::errors::errio("Invalid node provided")),
                }
            } else {
                Err(crate::errors::errio("Invalid node provided"))
            }
        },
        Node::Other => Err(crate::errors::errio("Invalid node provided")),
    }
}

/// The dictionary: a prefix index over rendered articles and the
/// abbreviation table of the sources fed so far.
pub struct Xdxf {
    dictionary: StrIndex,
    abbreviations: StrIndex,
}

impl View for Xdxf {
    type V = DictView;

    closed spec fn view(&self) -> DictView {
        DictView { dict: self.dictionary@, abbr: self.abbreviations@ }
    }
}

impl Xdxf {
    /// The structural invariant: both indexes sorted strictly by key.
    pub closed spec fn wf(&self) -> bool {
        self.dictionary.wf() && self.abbreviations.wf()
    }

    /// An empty dictionary.
    pub fn new() -> (r: Xdxf)
        ensures
            r@ == empty_dict(),
            r.wf(),
    {
        Xdxf { dictionary: StrIndex::new(), abbreviations: StrIndex::new() }
    }

    /// An independent copy with the same contents.
    fn duplicate(&self) -> (r: Xdxf)
        ensures
            r@ == self@,
    {
        Xdxf {
            dictionary: self.dictionary.duplicate(),
            abbreviations: self.abbreviations.duplicate(),
        }
    }

    /// Renders one node of an article, threading the per-article state.
    fn format_node(&self, n: &Node, st: FmtState) -> (r: Result<(FmtState, Vec<char>), XdxfError>)
        ensures
            fmt_res_view(r) == fmt_node(self@.abbr, n@, st@),
        decreases n,
    {
        match n {
            Node::Text { text } => {
                let v = crate::chars::str_to_chars(text.as_str());
                let (out, fb) = crate::text::norm_ws_exec(&v, st.first_br);
                Ok((FmtState { title: st.title, first_br: fb }, out))
            },
            Node::Other => Ok((st, Vec::new())),
            Node::Element { name, children } => {
                proof {
                    lemma_node_views(children@);
                }
                if crate::chars::str_eq(name.as_str(), "pos") {
                    let st1 = FmtState { title: st.title, first_br: false };
                    match self.format_children(children, st1) {
                        Ok((st2, out)) => {
                            let mut res = crate::chars::str_to_chars(
                                "<span class='partofspeech'>",
                            );
                            crate::chars::append_chars(&mut res, &out);
                            crate::chars::append_str(&mut res, "</span>");
                            proof {
                                assert(res@ =~= "<span class='partofspeech'>"@ + out@
                                    + "</span>"@);
                            }
                            Ok((st2, res))
                        },
                        Err(e) => Err(e),
                    }
                } else if crate::chars::str_eq(name.as_str(), "br") {
                    if st.first_br {
                        Ok(
                            (
                                FmtState { title: st.title, first_br: false },
                                crate::chars::str_to_chars("<br/>"),
                            ),
                        )
                    } else {
                        Ok((st, Vec::new()))
                    }
                } else if crate::chars::str_eq(name.as_str(), "abr") {
                    if children.len() == 0 {
                        return Err(crate::errors::errio("Invalid node provided"));
                    }
                    match &children[0] {
                        Node::Text { text } => {
                            let key = crate::chars::str_to_chars(text.as_str());
                            match self.abbreviations.get(&key) {
                                Some(exp) => {
                                    let mut res = crate::chars::str_to_chars("<acronym title='");
                                    crate::chars::append_chars(&mut res, exp);
                                    crate::chars::append_str(&mut res, "'>");
                                    crate::chars::append_chars(&mut res, &key);
                                    crate::chars::append_str(&mut res, "</acronym>");
                                    proof {
                                        assert(res@ =~= "<acronym title='"@ + exp@ + "'>"@ + key@
                                            + "</acronym>"@);
                                    }
                                    Ok((FmtState { title: st.title, first_br: false }, res))
                                },
                                None => Err(
                                    XdxfError::UndefinedAbbreviation(
                                        crate::chars::chars_to_string(&key),
                                    ),
                                ),
                            }
                        },
                        _ => Err(crate::errors::errio("Invalid node provided")),
                    }
                } else if crate::chars::str_eq(name.as_str(), "k") {
                    if children.len() == 0 {
                        return Err(crate::errors::errio("Invalid node provided"));
                    }
                    match nodeval(&children[0]) {
                        Ok(t) => {
                            let title = if st.title.is_none() {
                                Some(t)
                            } else {
                                st.title
                            };
                            Ok((FmtState { title, first_br: st.first_br }, Vec::new()))
                        },
                        Err(e) => Err(e),
                    }
                } else if crate::chars::str_eq(name.as_str(), "ar") {
                    self.format_children(children, st)
                } else {
                    match self.format_children(children, st) {
                        Ok((st2, out)) => {
                            let mut res: Vec<char> = Vec::new();
                            res.push('<');
                            crate::chars::append_str(&mut res, name.as_str());
                            res.push('>');
                            crate::chars::append_chars(&mut res, &out);
                            res.push('<');
                            res.push('/');
                            crate::chars::append_str(&mut res, name.as_str());
                            res.push('>');
                            proof {
                                assert(res@ =~= seq!['<'] + name@ + seq!['>'] + out@ + seq![
                                    '<',
                                    '/',
                                ] + name@ + seq!['>']);
                            }
                            Ok((st2, res))
                        },
                        Err(e) => Err(e),
                    }
                }
            },
        }
    }

    /// Renders a node's children in order, threading the state.
    #[verifier::loop_isolation(false)]
    fn format_children(&self, children: &Vec<Node>, st: FmtState) -> (r: Result<
        (FmtState, Vec<char>),
        XdxfError,
    >)
        ensures
            fmt_res_view(r) == fmt_seq(self@.abbr, node_views(children@), st@, 0),
        decreases children@,
    {
        let ghost aseq = self@.abbr;
        let ghost vs = node_views(children@);
        let ghost st0 = st@;
        proof {
            lemma_node_views(children@);
        }
        let mut cur = st;
        let mut out: Vec<char> = Vec::new();
        let mut i: usize = 0;
        while i < children.len()
            invariant
                i <= children@.len(),
                vs == node_views(children@),
                vs.len() == children@.len(),
                forall|x: int| 0 <= x < children@.len() ==> vs[x] == node_view(children@[x]),
                aseq == self@.abbr,
                fmt_seq(aseq, vs, st0, 0) == fmt_prepend(out@, fmt_seq(aseq, vs, cur@, i as int)),
            decreases children@.len() - i,
        {
            let ghost cur0 = cur@;
            let ghost out0 = out@;
            match self.format_node(&children[i], cur) {
                Ok((st1, o1)) => {
                    proof {
                        assert(fmt_node(aseq, vs[i as int], cur0) == Ok::<_, ErrView>(
                            (st1@, o1@),
                        ));
                    }
                    crate::chars::append_chars(&mut out, &o1);
                    proof {
                        match fmt_seq(aseq, vs, st1@, i + 1 as int) {
                            Ok(so) => {
                                assert(out0 + (o1@ + so.1) =~= (out0 + o1@) + so.1);
                            },
                            Err(e) => {},
                        }
                    }
                    cur = st1;
                    i += 1;
                },
                Err(e) => {
                    proof {
                        assert(fmt_seq(aseq, vs, cur0, i as int) == Err::<(FmtSt, Seq<char>),
                            _,
                        >(e@));
                        assert(fmt_seq(aseq, vs, st0, 0) == fmt_prepend(
                            out@,
                            fmt_seq(aseq, vs, cur0, i as int),
                        ));
                        assert(fmt_prepend(out@, fmt_seq(aseq, vs, cur0, i as int))
                            == Err::<(FmtSt, Seq<char>), ErrView>(e@));
                        assert(fmt_seq(aseq, vs, st0, 0) == Err::<(FmtSt, Seq<char>), _>(e@));
                    }
                    return Err(e);
                },
            }
        }
        proof {
            assert(fmt_seq(aseq, vs, cur@, i as int) == Ok::<_, ErrView>(
                (cur@, Seq::<char>::empty()),
            ));
            assert(out@ + Seq::<char>::empty() =~= out@);
        }
        Ok((cur, out))
    }

    /// Records one abbreviation definition from the children of its node.
    #[verifier::loop_isolation(false)]
    fn add_abbreviation(&mut self, children: &Vec<Node>) -> (r: Result<(), XdxfError>)
        requires
            old(self).wf(),
        ensures
            final(self).wf(),
            final(self)@.dict == old(self)@.dict,
            match r {
                Ok(()) => add_abbr(old(self)@.abbr, node_views(children@)) == Ok::<
                    _,
                    ErrView,
                >(final(self)@.abbr),
                Err(e) => add_abbr(old(self)@.abbr, node_views(children@)) == Err::<
                    Seq<(Seq<char>, Seq<char>)>,
                    _,
                >(e@),
            },
    {
        let ghost vs = node_views(children@);
        proof {
            lemma_node_views(children@);
        }
        let mut elems: Vec<usize> = Vec::new();
        let ghost mut acc = Seq::<NodeView>::empty();
        let mut i: usize = 0;
        while i < children.len()
            invariant
                i <= children@.len(),
                elems@.len() == acc.len(),
                forall|x: int| 0 <= x < elems@.len() ==> (elems@[x] as int) < children@.len(),
                forall|x: int| 0 <= x < elems@.len() ==> acc[x] == vs[elems@[x] as int],
                forall|x: int| 0 <= x < elems@.len() ==> acc[x] is Element,
                abbr_elems(vs, 0) == elems_prepend(acc, abbr_elems(vs, i as int)),
                self == old(self),
            decreases children@.len() - i,
        {
            let ghost acc0 = acc;
            match &children[i] {
                Node::Element { name, children: c } => {
                    elems.push(i);
                    proof {
                        acc = acc + seq![vs[i as int]];
                        match abbr_elems(vs, i + 1 as int) {
                            Ok(rest) => {
                                assert(acc0 + (seq![vs[i as int]] + rest) =~= acc + rest);
                            },
                            Err(e) => {},
                        }
                    }
                },
                Node::Text { text } => {
                    if !crate::chars::str_all_wsp(text.as_str()) {
                        return err("Unexpected abbreviation content");
                    }
                },
                Node::Other => {
                    return err("Unexpected abbreviation content");
                },
            }
            i += 1;
        }
        proof {
            assert(acc + Seq::<NodeView>::empty() =~= acc);
            assert(abbr_elems(vs, 0) == Ok::<_, ErrView>(acc));
        }
        if elems.len() != 2 {
            return err("Unexpected abbreviation child length");
        }
        let i1 = elems[0];
        let i2 = elems[1];
        let e1 = &children[i1];
        let e2 = &children[i2];
        let (ki, vi): (usize, usize) = if elem_name_is(e1, "k") && elem_name_is(e2, "v") {
            (i1, i2)
        } else if elem_name_is(e1, "v") && elem_name_is(e2, "k") {
            (i2, i1)
        } else {
            return err("Unexpected abbreviation content");
        };
        match nodeval(&children[ki]) {
            Ok(key) => match nodeval(&children[vi]) {
                Ok(val) => {
                    self.abbreviations.insert(key, val);
                    Ok(())
                },
                Err(e) => Err(e),
            },
            Err(e) => Err(e),
        }
    }

    /// Routes the children of an `abbreviations` block: each element child
    /// must be a definition; text children are ignored.
    #[verifier::loop_isolation(false)]
    fn parse_abbreviations(&mut self, children: &Vec<Node>) -> (r: Result<(), XdxfError>)
        requires
            old(self).wf(),
        ensures
            final(self).wf(),
            final(self)@.dict == old(self)@.dict,
            match r {
                Ok(()) => feed_abbrs(old(self)@.abbr, node_views(children@), 0) == Ok::<
                    _,
                    ErrView,
                >(final(self)@.abbr),
                Err(e) => feed_abbrs(old(self)@.abbr, node_views(children@), 0) == Err::<
                    Seq<(Seq<char>, Seq<char>)>,
                    _,
                >(e@),
            },
    {
        let ghost vs = node_views(children@);
        proof {
            lemma_node_views(children@);
        }
        let mut i: usize = 0;
        while i < children.len()
            invariant
                i <= children@.len(),
                self.wf(),
                self@.dict == old(self)@.dict,
                feed_abbrs(old(self)@.abbr, vs, 0) == feed_abbrs(self@.abbr, vs, i as int),
            decreases children@.len() - i,
        {
            match &children[i] {
                Node::Element { name, children: c } => {
                    if !crate::chars::str_eq(name.as_str(), "abr_def") {
                        return err("Unexpected abbreviations child");
                    }
                    match self.add_abbreviation(c) {
                        Ok(()) => {},
                        Err(e) => {
                            return Err(e);
                        },
                    }
                },
                Node::Text { text } => {},
                Node::Other => {
                    return err("Unexpected abbreviations child");
                },
            }
            i += 1;
        }
        Ok(())
    }

    /// Renders one article and indexes it under its headword.
    fn add_article(&mut self, n: &Node) -> (r: Result<(), XdxfError>)
        requires
            old(self).wf(),
        ensures
            final(self).wf(),
            final(self)@.abbr == old(self)@.abbr,
            match r {
                Ok(()) => fmt_article(old(self)@.abbr, n@) matches Ok(tc) && final(self)@.dict
                    == idx_insert(old(self)@.dict, tc.0, tc.1),
                Err(e) => fmt_article(old(self)@.abbr, n@) == Err::<
                    (Seq<char>, Seq<char>),
                    _,
                >(e@) && final(self)@.dict == old(self)@.dict,
            },
    {
        let st = FmtState { title: None, first_br: true };
        match self.format_node(n, st) {
            Ok((st2, out)) => {
                let title: Vec<char> = match st2.title {
                    Some(t) => t,
                    None => Vec::new(),
                };
                self.dictionary.insert(title, out);
                Ok(())
            },
            Err(e) => Err(e),
        }
    }

    /// Routes the children of a document element: abbreviations blocks and
    /// articles, in document order; everything else is ignored.
    #[verifier::loop_isolation(false)]
    fn parse_root(&mut self, children: &Vec<Node>) -> (r: Result<(), XdxfError>)
        requires
            old(self).wf(),
        ensures
            final(self).wf(),
            match r {
                Ok(()) => feed_root(old(self)@, node_views(children@), 0) == Ok::<_, ErrView>(
                    final(self)@,
                ),
                Err(e) => feed_root(old(self)@, node_views(children@), 0) == Err::<
                    DictView,
                    _,
                >(e@),
            },
    {
        let ghost vs = node_views(children@);
        proof {
            lemma_node_views(children@);
        }
        let mut i: usize = 0;
        while i < children.len()
            invariant
                i <= children@.len(),
                self.wf(),
                feed_root(old(self)@, vs, 0) == feed_root(self@, vs, i as int),
            decreases children@.len() - i,
        {
            let ghost before = self@;
            match &children[i] {
                Node::Element { name, children: c } => {
                    if crate::chars::str_eq(name.as_str(), "abbreviations") {
                        match self.parse_abbreviations(c) {
                            Ok(()) => {
                                proof {
                                    assert(self@ == DictView {
                                        dict: before.dict,
                                        abbr: self@.abbr,
                                    });
                                }
                            },
                            Err(e) => {
                                return Err(e);
                            },
                        }
                    } else if crate::chars::str_eq(name.as_str(), "ar") {
                        match self.add_article(&children[i]) {
                            Ok(()) => {
                                proof {
                                    assert(self@ == DictView {
                                        dict: self@.dict,
                                        abbr: before.abbr,
                                    });
                                }
                            },
                            Err(e) => {
                                return Err(e);
                            },
                        }
                    }
                },
                _ => {},
            }
            i += 1;
        }
        Ok(())
    }

    /// Parses one source and merges its abbreviations and articles into this
    /// dictionary; on any failure the dictionary is left exactly as it was.
    #[verifier::loop_isolation(false)]
    pub fn feed_str(&mut self, data: &str) -> (r: Result<(), XdxfError>)
        requires
            old(self).wf(),
        ensures
            final(self).wf(),
            match r {
                Ok(()) => feed_text(old(self)@, data@) == Ok::<_, ErrView>(final(self)@),
                Err(e) => feed_text(old(self)@, data@) == Err::<DictView, _>(e@) && final(self)@
                    == old(self)@,
            },
    {
        let v = crate::chars::str_to_chars(data);
        let pre = crate::acro::acro_reorder_exec(&v);
        let trimmed = crate::text::trim_exec(&pre);
        let s = crate::chars::chars_to_string(&trimmed);
        match crate::parse::parse_xml(s.as_str()) {
            None => Err(XdxfError::Malformed),
            Some(roots) => {
                let ghost rs = node_views(roots@);
                proof {
                    lemma_node_views(roots@);
                }
                let mut tmp = self.duplicate();
                let mut i: usize = 0;
                while i < roots.len()
                    invariant
                        i <= roots@.len(),
                        tmp.wf(),
                        feed_doc(old(self)@, rs, 0) == feed_doc(tmp@, rs, i as int),
                        *self == *old(self),
                    decreases roots@.len() - i,
                {
                    match &roots[i] {
                        Node::Element { name, children: c } => {
                            if crate::chars::str_eq(name.as_str(), "xdxf") {
                                match tmp.parse_root(c) {
                                    Ok(()) => {},
                                    Err(e) => {
                                        return Err(e);
                                    },
                                }
                            }
                        },
                        _ => {},
                    }
                    i += 1;
                }
                *self = tmp;
                Ok(())
            },
        }
    }

    /// Parses one source fully into a fresh dictionary.
    pub fn load_str(data: &str) -> (r: Result<Xdxf, XdxfError>)
        ensures
            match r {
                Ok(d) => d.wf() && feed_text(empty_dict(), data@) == Ok::<_, ErrView>(d@),
                Err(e) => feed_text(empty_dict(), data@) == Err::<DictView, _>(e@),
            },
    {
        let mut dict = Xdxf::new();
        match dict.feed_str(data) {
            Ok(()) => Ok(dict),
            Err(e) => Err(e),
        }
    }

    /// The expansion recorded for an abbreviation key, if any.
    pub fn abbreviation(&self, key: &str) -> (r: Option<String>)
        ensures
            match r {
                Some(s) => idx_get(self@.abbr, key@) == Some(s@),
                None => idx_get(self@.abbr, key@) is None,
            },
    {
        let k = crate::chars::str_to_chars(key);
        match self.abbreviations.get(&k) {
            Some(v) => Some(crate::chars::chars_to_string(v)),
            None => None,
        }
    }

    /// Every entry whose headword starts with the prefix, in ascending
    /// headword code-point order; empty for a prefix of fewer than three
    /// characters.
    pub fn lookup(&self, prefix: &str) -> (r: Vec<(String, String)>)
        ensures
            r@.map_values(|t: (String, String)| (t.0@, t.1@)) == lookup_spec(self@.dict, prefix@),
    {
        let p = crate::chars::str_to_chars(prefix);
        if p.len() < 3 {
            let r: Vec<(String, String)> = Vec::new();
            proof {
                assert(r@.map_values(|t: (String, String)| (t.0@, t.1@)) =~= lookup_spec(
                    self@.dict,
                    prefix@,
                ));
            }
            return r;
        }
        self.dictionary.matches(&p)
    }
}

} // verus!
