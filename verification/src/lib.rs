//! A dictionary built from headword-entry markup: each article is rendered
//! to a small markup subset and indexed by headword for exact-prefix lookup.
//! Sources pass through an acronym-reordering preprocessor and an external
//! structural parser; everything done with the parsed tree is verified.
use vstd::prelude::*;

mod acro;
mod chars;
mod errors;
mod index;
mod laws;
mod node;
mod parse;
mod text;
mod xdxf;

pub use acro::acro_reorder;
pub use chars::{is_letter, is_wsp};
pub use errors::{err, errio, ErrView, XdxfError};
pub use index::{idx_get, idx_insert, lemma_seq_lt_trans, lemma_seq_lt_trichotomy, matches_from,
    seq_lt, sorted_entries, starts_with, StrIndex};
pub use laws::{lemma_feed_round_trip, lemma_lookup_short_prefix, lemma_lookup_sorted,
    lemma_matches_from_sorted, lemma_phase_permanent, lemma_undefined_abbreviation};
pub use node::{Node, NodeView};
pub use parse::parse_of;
pub use text::{lemma_norm_ws_idempotent, no_blank_from, no_lsp, norm_ws, replace_sps};
pub use xdxf::{empty_dict, feed_text, fmt_article, fmt_node, fmt_seq, lookup_spec, node_val,
    nodeval, DictView, FmtSt, FmtState, Xdxf};

verus! {

} // verus!
