//! Episode numbers in file names, found with the `regex` crate.

use vstd::prelude::*;

use crate::number::{parse_u32, parse_u32_spec};

verus! {

/// `regex::Regex`, carried through the library as an opaque value.
#[verifier::external_type_specification]
#[verifier::external_body]
pub struct ExRegex(regex::Regex);

/// `regex::Error`, the error `regex::Regex::new` reports.
#[verifier::external_type_specification]
#[verifier::external_body]
pub struct ExRegexError(regex::Error);

/// Text of the leftmost-first match of the regular expression `pattern` in
/// `hay`, or `None` when it does not match.
pub uninterp spec fn regex_match_text(pattern: Seq<char>, hay: Seq<char>) -> Option<Seq<char>>;

/// Capture group `group` of the leftmost-first match of `pattern` in `hay`:
/// `None` when there is no match, `Some(None)` when the group took no part
/// in it, else the text it captured.
pub uninterp spec fn regex_group_text(pattern: Seq<char>, hay: Seq<char>, group: nat) -> Option<
    Option<Seq<char>>,
>;

/// Whether `regex::Regex::new` accepts `pattern` (its syntax is valid and the
/// compiled program fits the default size limits).
pub uninterp spec fn regex_compiles(pattern: Seq<char>) -> bool;

/// A compiled regular expression together with its source text.
pub struct Pattern {
    source: String,
    compiled: regex::Regex,
}

impl View for Pattern {
    type V = Seq<char>;

    closed spec fn view(&self) -> Seq<char> {
        self.source@
    }
}

/// Why a pattern could not be compiled.
#[derive(Debug)]
pub struct PatternError {
    pub pattern: String,
}

/// Calls `regex::Regex::new`. Claims only that it succeeds exactly when
/// `regex_compiles` holds of the source text, which depends on that text
/// alone; nothing is claimed of the compiled value, which is only ever
/// stored beside the source text it was compiled from.
#[verifier::external_body]
fn compile_regex(source: &str) -> (r: Result<regex::Regex, regex::Error>)
    ensures
        r is Ok <==> regex_compiles(source@),
{
    regex::Regex::new(source)
}

/// Calls `regex::Regex::find` on the pattern's compiled regex and copies the
/// matched text. Claims that the text is the leftmost-first match named by
/// `regex_match_text` for the pattern's source.
#[verifier::external_body]
fn regex_find(p: &Pattern, hay: &str) -> (r: Option<String>)
    ensures
        match r {
            Some(t) => regex_match_text(p@, hay@) == Some(t@),
            None => regex_match_text(p@, hay@) is None,
        },
{
    p.compiled.find(hay).map(|m| m.as_str().to_string())
}

/// Calls `regex::Regex::captures` on the pattern's compiled regex and copies
/// the text of group `group` (`regex::Captures::get`). Claims the result is the
/// one named by `regex_group_text` for the pattern's source.
#[verifier::external_body]
fn regex_captures_group(p: &Pattern, hay: &str, group: usize) -> (r: Option<Option<String>>)
    ensures
        match r {
            None => regex_group_text(p@, hay@, group as nat) is None,
            Some(None) => regex_group_text(p@, hay@, group as nat) == Some(None::<Seq<char>>),
            Some(Some(t)) => regex_group_text(p@, hay@, group as nat) == Some(Some(t@)),
        },
{
    match p.compiled.captures(hay) {
        Some(caps) => Some(caps.get(group).map(|m| m.as_str().to_string())),
        None => None,
    }
}

impl Pattern {
    /// Compiles `source`: it succeeds exactly when the regex crate accepts
    /// it, and the pattern's view is `source`.
    pub fn new(source: &str) -> (r: Result<Pattern, PatternError>)
        ensures
            r is Ok <==> regex_compiles(source@),
            r matches Ok(p) ==> p@ == source@,
            r matches Err(e) ==> e.pattern@ == source@,
    {
        match compile_regex(source) {
            Ok(compiled) => Ok(Pattern { source: String::from_str(source), compiled }),
            Err(_) => Err(PatternError { pattern: String::from_str(source) }),
        }
    }
}

/// The pattern for an explicit episode marker: `E` and two digits, the
/// digits captured as group 1.
pub open spec fn marker_pattern() -> Seq<char> {
    "E(\\d\\d)"@
}

/// The pattern for any two consecutive digits.
pub open spec fn two_digits_pattern() -> Seq<char> {
    "\\d\\d"@
}

/// The episode number given the two searches: the marker's digits when the
/// marker matches (even if they do not parse), else the first two digits.
pub open spec fn episode_from_matches_spec(
    marker: Option<Option<Seq<char>>>,
    two_digits: Option<Seq<char>>,
) -> Option<u32> {
    match marker {
        Some(group) => match group {
            Some(t) => parse_u32_spec(t),
            None => None,
        },
        None => match two_digits {
            Some(t) => parse_u32_spec(t),
            None => None,
        },
    }
}

/// The episode number in a file name.
pub open spec fn episode_number_spec(name: Seq<char>) -> Option<u32> {
    episode_from_matches_spec(
        regex_group_text(marker_pattern(), name, 1),
        regex_match_text(two_digits_pattern(), name),
    )
}

/// The episode number from the results of the two searches.
pub fn episode_from_matches(marker: Option<Option<String>>, two_digits: Option<String>) -> (r:
    Option<u32>)
    ensures
        r == episode_from_matches_spec(
            match marker {
                Some(g) => Some(
                    match g {
                        Some(t) => Some(t@),
                        None => None,
                    },
                ),
                None => None,
            },
            match two_digits {
                Some(t) => Some(t@),
                None => None,
            },
        ),
{
    match marker {
        Some(group) => match group {
            Some(t) => parse_u32(t.as_str()),
            None => None,
        },
        None => match two_digits {
            Some(t) => parse_u32(t.as_str()),
            None => None,
        },
    }
}

/// The two compiled patterns that locate episode numbers.
pub struct EpisodePatterns {
    marker: Pattern,
    two_digits: Pattern,
}

impl EpisodePatterns {
    #[verifier::type_invariant]
    spec fn patterns_are_fixed(self) -> bool {
        &&& self.marker@ == marker_pattern()
        &&& self.two_digits@ == two_digits_pattern()
    }

    /// Compiles both patterns: it succeeds exactly when the regex crate
    /// accepts both, else the error names the first one it rejects.
    pub fn new() -> (r: Result<EpisodePatterns, PatternError>)
        ensures
            r is Ok <==> regex_compiles(marker_pattern()) && regex_compiles(
                two_digits_pattern(),
            ),
            r matches Err(e) ==> if regex_compiles(marker_pattern()) {
                e.pattern@ == two_digits_pattern()
            } else {
                e.pattern@ == marker_pattern()
            },
    {
        let marker = match Pattern::new("E(\\d\\d)") {
            Ok(p) => p,
            Err(e) => {
                return Err(e);
            },
        };
        let two_digits = match Pattern::new("\\d\\d") {
            Ok(p) => p,
            Err(e) => {
                return Err(e);
            },
        };
        Ok(EpisodePatterns { marker, two_digits })
    }

    /// The episode number in `file_name`: the two digits after the first
    /// `E` followed by two digits; failing that, the first two digits.
    pub fn extract_episode_number(&self, file_name: &str) -> (r: Option<u32>)
        ensures
            r == episode_number_spec(file_name@),
    {
        proof {
            use_type_invariant(self);
        }
        let marker = regex_captures_group(&self.marker, file_name, 1);
        let two = if marker.is_none() {
            regex_find(&self.two_digits, file_name)
        } else {
            None
        };
        episode_from_matches(marker, two)
    }
}

} // verus!
