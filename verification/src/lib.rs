//! Catalogue and search index for documentation item graphs.
//!
//! A raw item graph (modules, types, functions, imports, associated members)
//! is resolved into a deduplicated, totally ordered set of addressable
//! entries, each carrying every canonical dotted path by which it is
//! reachable.  The sorted entries are then grouped by search key into a
//! compact key-to-range index, which answers automaton-style string queries
//! (edit distance, subsequence, regex, and unions thereof) in sorted order.

mod automaton;
mod parser;
mod seeker;
mod text;

pub use automaton::{
    is_byte_subseq, lev_match, lev_prefix_match, regex_match, LevMatcher, LevStartsMatcher,
    Matcher, RegexMatcher, SubseqMatcher, UnionMatcher,
};
pub use parser::{
    fix_associated_item_kind, lemma_reexport_fanout, lemma_restricted_owner_anchors_nothing,
    lemma_visibility_pruning, map_doc_item_kind, spec_entry_set, spec_paths, spec_resolution,
    ItemPayload, MacroKind, ParentLink, RawCrate, RawItem, Resolution, RustDocParseError,
    StructKind, VariantKind, Visibility, SUPPORTED_FORMAT_VERSION,
};
pub use seeker::{
    entry_key, entry_lt, entry_ord_eq, lemma_range_contiguity, matching_entries, spec_naive,
    spec_url, strictly_sorted, CapacityError, DocItem, DocItemKind, LinkType, RustDoc,
    RustDocSeeker, SpecEntry, SpecLink, SpecTypeItem, TypeItem,
};
pub use text::lex_lt;
