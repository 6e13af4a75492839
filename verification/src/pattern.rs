use vstd::prelude::*;
use regex::Regex;

verus! {

#[verifier::external_type_specification]
#[verifier::external_body]
pub struct ExRegex(Regex);

/// Whether `regex::Regex::new` accepts `pattern`.
pub uninterp spec fn pattern_compiles(pattern: Seq<char>) -> bool;

/// What `regex::Regex::is_match` answers for the regex built from `pattern`
/// on `haystack`.
pub uninterp spec fn pattern_matches(pattern: Seq<char>, haystack: Seq<char>) -> bool;

/// The texts of the successive non-overlapping matches that
/// `regex::Regex::find_iter` yields for the regex built from `pattern` on
/// `haystack`, in order.
pub uninterp spec fn pattern_find_all(pattern: Seq<char>, haystack: Seq<char>) -> Seq<Seq<char>>;

/// The text of the match that `regex::Regex::find` returns for the regex built
/// from `pattern` on `haystack`, if any.
pub uninterp spec fn pattern_find_first(pattern: Seq<char>, haystack: Seq<char>) -> Option<Seq<char>>;

/// `piece` is a contiguous part of `haystack`.
pub open spec fn is_piece_of(piece: Seq<char>, haystack: Seq<char>) -> bool {
    exists|i: int|
        0 <= i && i + piece.len() <= haystack.len() && #[trigger] haystack.subrange(i, i + piece.len())
            == piece
}

/// A character that a contiguous part holds is held by the whole.
pub proof fn lemma_piece_chars(piece: Seq<char>, haystack: Seq<char>, c: char)
    requires
        is_piece_of(piece, haystack),
        piece.contains(c),
    ensures
        haystack.contains(c),
{
    let i = choose|i: int|
        0 <= i && i + piece.len() <= haystack.len() && #[trigger] haystack.subrange(i, i + piece.len())
            == piece;
    let j = choose|j: int| 0 <= j < piece.len() && piece[j] == c;
    assert(haystack.subrange(i, i + piece.len())[j] == haystack[i + j]);
}

/// A regular expression together with the pattern it was built from.
///
/// Values are made only by `Pattern::new`, which builds `compiled` from
/// `source`; the methods below rely on that pairing.
pub struct Pattern {
    source: String,
    compiled: Regex,
}

impl View for Pattern {
    type V = Seq<char>;

    closed spec fn view(&self) -> Seq<char> {
        self.source@
    }
}

impl Pattern {
    /// Calls `regex::Regex::new`. Claimed: the result is `Some` exactly when
    /// the pattern is accepted (a property of the pattern alone), and a
    /// `Some` remembers the pattern it was built from.
    #[verifier::external_body]
    pub(crate) fn new(pattern: &str) -> (res: Option<Pattern>)
        ensures
            res is Some <==> pattern_compiles(pattern@),
            res matches Some(p) ==> p@ == pattern@,
    {
        match Regex::new(pattern) {
            Ok(re) => Some(Pattern { source: pattern.to_string(), compiled: re }),
            Err(_) => None,
        }
    }

    /// Calls `regex::Regex::is_match`. Claimed: the answer is the named
    /// result for this pattern and haystack.
    #[verifier::external_body]
    pub(crate) fn is_match(&self, haystack: &str) -> (res: bool)
        ensures
            res == pattern_matches(self@, haystack@),
    {
        self.compiled.is_match(haystack)
    }

    /// Calls `regex::Regex::find_iter` and takes the text of each match.
    /// Claimed: the texts, in order, are the named result for this pattern
    /// and haystack, and each is a contiguous part of the haystack (a
    /// match's text is the haystack over the match's range).
    #[verifier::external_body]
    pub(crate) fn find_all(&self, haystack: &str) -> (res: Vec<String>)
        ensures
            res@.map_values(|s: String| s@) == pattern_find_all(self@, haystack@),
            forall|k: int| 0 <= k < res@.len() ==> is_piece_of(#[trigger] res@[k]@, haystack@),
    {
        self.compiled.find_iter(haystack).map(|m| m.as_str().to_string()).collect()
    }

    /// Calls `regex::Regex::find` and takes the text of the match. Claimed:
    /// the text, or its absence, is the named result for this pattern and
    /// haystack, and the text is a contiguous part of the haystack.
    #[verifier::external_body]
    pub(crate) fn find_first(&self, haystack: &str) -> (res: Option<String>)
        ensures
            match res {
                Some(s) => pattern_find_first(self@, haystack@) == Some(s@),
                None => pattern_find_first(self@, haystack@) is None,
            },
            res matches Some(s) ==> is_piece_of(s@, haystack@),
    {
        self.compiled.find(haystack).map(|m| m.as_str().to_string())
    }
}

} // verus!
