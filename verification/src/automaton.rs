//! Matchers: incremental string predicates over search key bytes.
//!
//! The search engine consumes a matcher through one minimal capability:
//! whether a whole key is accepted.  The concrete matching algorithms
//! (edit distance, subsequence, regex) are supplied by outside automata and
//! are consumed, not reimplemented; unions are composed here and verified.

use fst::Automaton;
use regex_automata::DFA;
use vstd::prelude::*;
use vstd::string::StringSliceAdditionalSpecFns;
use vstd::utf8::encode_utf8;

verus! {

/// An incremental string-matching predicate over key bytes.
///
/// `spec_matches` is the mathematical predicate a matcher denotes;
/// `matches` decides it for a concrete key.
pub trait Matcher {
    spec fn spec_matches(&self, key: Seq<u8>) -> bool;

    fn matches(&self, key: &[u8]) -> (r: bool)
        ensures
            r == self.spec_matches(key@),
    ;
}

/// `q` occurs as a subsequence of `k` (greedy scan; taking a byte of `k`
/// whenever it equals the next wanted byte of `q` finds an embedding
/// exactly when one exists).
pub open spec fn is_byte_subseq(q: Seq<u8>, k: Seq<u8>) -> bool
    decreases k.len(),
{
    if q.len() == 0 {
        true
    } else if k.len() == 0 {
        false
    } else if q[0] == k[0] {
        is_byte_subseq(q.drop_first(), k.drop_first())
    } else {
        is_byte_subseq(q, k.drop_first())
    }
}

/// Matches keys containing the query as a (not necessarily contiguous)
/// subsequence.
pub struct SubseqMatcher {
    pub query: String,
}

impl SubseqMatcher {
    pub fn new(query: String) -> (r: SubseqMatcher)
        ensures
            r.query@ == query@,
    {
        SubseqMatcher { query }
    }
}

/// Relies on `fst::automaton::Subsequence`: its state is how many bytes of
/// the query have been seen, advanced greedily on each equal byte, and a
/// key matches when all query bytes were seen; that is `is_byte_subseq`.
#[verifier::external_body]
fn subseq_run(query: &str, key: &[u8]) -> (r: bool)
    ensures
        r == is_byte_subseq(query.spec_bytes(), key@),
{
    let aut = fst::automaton::Subsequence::new(query);
    let mut state = aut.start();
    for b in key {
        state = aut.accept(&state, *b);
    }
    aut.is_match(&state)
}

impl Matcher for SubseqMatcher {
    open spec fn spec_matches(&self, key: Seq<u8>) -> bool {
        is_byte_subseq(encode_utf8(self.query@), key)
    }

    fn matches(&self, key: &[u8]) -> (r: bool) {
        subseq_run(self.query.as_str(), key)
    }
}

/// What the edit-distance automaton built from `query` and `distance`
/// answers for `key`: whether `key` is within `distance` edits of `query`.
pub uninterp spec fn lev_match(query: Seq<char>, distance: u32, key: Seq<u8>) -> bool;

/// Matches keys within a fixed edit distance of the query.
pub struct LevMatcher {
    query: String,
    distance: u32,
    inner: fst::automaton::Levenshtein,
}

impl LevMatcher {
    /// The query this matcher was built from.
    pub closed spec fn spec_query(&self) -> Seq<char> {
        self.query@
    }

    /// The edit budget this matcher was built with.
    pub closed spec fn spec_distance(&self) -> u32 {
        self.distance
    }
}

#[verifier::external_type_specification]
#[verifier::external_body]
pub struct ExLevenshtein(fst::automaton::Levenshtein);

/// Relies on `fst::automaton::Levenshtein::new`: builds the automaton for
/// this query and distance, or reports that it grew too big.
#[verifier::external_body]
fn lev_build(query: &str, distance: u32) -> (r: Option<LevMatcher>)
    ensures
        r matches Some(m) ==> m.query@ == query@ && m.distance == distance,
{
    match fst::automaton::Levenshtein::new(query, distance) {
        Ok(a) => Some(LevMatcher { query: query.to_owned(), distance, inner: a }),
        Err(_) => None,
    }
}

/// Relies on `fst::automaton::Levenshtein`'s `Automaton` impl, run over the
/// key bytes; the verdict depends only on the query, the distance and the
/// key.
#[verifier::external_body]
fn lev_run(m: &LevMatcher, key: &[u8]) -> (r: bool)
    ensures
        r == lev_match(m.query@, m.distance, key@),
{
    let mut state = m.inner.start();
    for b in key {
        state = m.inner.accept(&state, *b);
    }
    m.inner.is_match(&state)
}

impl LevMatcher {
    /// Builds the automaton; `None` when it would grow past the outside
    /// crate's state limit.
    pub fn new(query: &str, distance: u32) -> (r: Option<LevMatcher>)
        ensures
            r matches Some(m) ==> m.spec_query() == query@ && m.spec_distance() == distance,
    {
        lev_build(query, distance)
    }
}

impl Matcher for LevMatcher {
    open spec fn spec_matches(&self, key: Seq<u8>) -> bool {
        lev_match(self.spec_query(), self.spec_distance(), key)
    }

    fn matches(&self, key: &[u8]) -> (r: bool) {
        lev_run(self, key)
    }
}

/// What the "starts-with" wrapping of the edit-distance automaton answers
/// for `key`: whether some prefix of `key` is within `distance` edits of
/// `query`.
pub uninterp spec fn lev_prefix_match(query: Seq<char>, distance: u32, key: Seq<u8>) -> bool;

/// Matches keys having the query, within the edit budget, as a prefix.
pub struct LevStartsMatcher {
    query: String,
    distance: u32,
    inner: fst::automaton::Levenshtein,
}

impl LevStartsMatcher {
    /// The query this matcher was built from.
    pub closed spec fn spec_query(&self) -> Seq<char> {
        self.query@
    }

    /// The edit budget this matcher was built with.
    pub closed spec fn spec_distance(&self) -> u32 {
        self.distance
    }
}

/// Relies on `fst::automaton::Levenshtein::new`, as in `lev_build`.
#[verifier::external_body]
fn lev_starts_build(query: &str, distance: u32) -> (r: Option<LevStartsMatcher>)
    ensures
        r matches Some(m) ==> m.query@ == query@ && m.distance == distance,
{
    match fst::automaton::Levenshtein::new(query, distance) {
        Ok(a) => Some(LevStartsMatcher { query: query.to_owned(), distance, inner: a }),
        Err(_) => None,
    }
}

/// Relies on `fst::Automaton::starts_with` wrapping the edit-distance
/// automaton, run over the key bytes.
#[verifier::external_body]
fn lev_starts_run(m: &LevStartsMatcher, key: &[u8]) -> (r: bool)
    ensures
        r == lev_prefix_match(m.query@, m.distance, key@),
{
    let aut = (&m.inner).starts_with();
    let mut state = aut.start();
    for b in key {
        state = aut.accept(&state, *b);
    }
    aut.is_match(&state)
}

impl LevStartsMatcher {
    /// Builds the automaton; `None` when it would grow past the outside
    /// crate's state limit.
    pub fn new(query: &str, distance: u32) -> (r: Option<LevStartsMatcher>)
        ensures
            r matches Some(m) ==> m.spec_query() == query@ && m.spec_distance() == distance,
    {
        lev_starts_build(query, distance)
    }
}

impl Matcher for LevStartsMatcher {
    open spec fn spec_matches(&self, key: Seq<u8>) -> bool {
        lev_prefix_match(self.spec_query(), self.spec_distance(), key)
    }

    fn matches(&self, key: &[u8]) -> (r: bool) {
        lev_starts_run(self, key)
    }
}

/// What the dense DFA compiled from `pattern` answers for `key`.
pub uninterp spec fn regex_match(pattern: Seq<char>, key: Seq<u8>) -> bool;

/// Matches keys accepted by a regex, through a precompiled dense DFA.
pub struct RegexMatcher {
    pattern: String,
    dfa: RegexDfa,
}

impl RegexMatcher {
    /// The pattern this matcher was compiled from.
    pub closed spec fn spec_pattern(&self) -> Seq<char> {
        self.pattern@
    }
}

/// Holds the compiled dense DFA; opaque to the verifier, which refuses the
/// outside type's own generic bounds.
#[verifier::external_body]
struct RegexDfa {
    dfa: regex_automata::DenseDFA<Vec<usize>, usize>,
}

/// Relies on `regex_automata::DenseDFA::new`: compiles the pattern, or
/// reports that it is not a valid regex.
#[verifier::external_body]
fn regex_build(pattern: &str) -> (r: Option<RegexMatcher>)
    ensures
        r matches Some(m) ==> m.pattern@ == pattern@,
{
    match regex_automata::DenseDFA::new(pattern) {
        Ok(dfa) => Some(RegexMatcher { pattern: pattern.to_owned(), dfa: RegexDfa { dfa } }),
        Err(_) => None,
    }
}

/// Relies on `regex_automata::DFA::is_match` on the dense DFA; the verdict
/// depends only on the pattern and the key.
#[verifier::external_body]
fn regex_run(m: &RegexMatcher, key: &[u8]) -> (r: bool)
    ensures
        r == regex_match(m.pattern@, key@),
{
    m.dfa.dfa.is_match(key)
}

impl RegexMatcher {
    /// Compiles the pattern; `None` when it is not a valid regex.
    pub fn new(pattern: &str) -> (r: Option<RegexMatcher>)
        ensures
            r matches Some(m) ==> m.spec_pattern() == pattern@,
    {
        regex_build(pattern)
    }
}

impl Matcher for RegexMatcher {
    open spec fn spec_matches(&self, key: Seq<u8>) -> bool {
        regex_match(self.spec_pattern(), key)
    }

    fn matches(&self, key: &[u8]) -> (r: bool) {
        regex_run(self, key)
    }
}

/// Matches keys accepted by either of two matchers.
pub struct UnionMatcher<A, B> {
    pub first: A,
    pub second: B,
}

impl<A: Matcher, B: Matcher> UnionMatcher<A, B> {
    pub fn new(first: A, second: B) -> (r: UnionMatcher<A, B>)
        ensures
            r.first == first,
            r.second == second,
    {
        UnionMatcher { first, second }
    }
}

impl<A: Matcher, B: Matcher> Matcher for UnionMatcher<A, B> {
    open spec fn spec_matches(&self, key: Seq<u8>) -> bool {
        self.first.spec_matches(key) || self.second.spec_matches(key)
    }

    fn matches(&self, key: &[u8]) -> (r: bool) {
        if self.first.matches(key) {
            true
        } else {
            self.second.matches(key)
        }
    }
}

} // verus!
