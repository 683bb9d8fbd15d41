//! Regular expressions, held by their source text. What an expression
//! matches is the `regex` crate's to say; the contracts here name it.

use vstd::prelude::*;
use crate::error::{ErrorKind, GsyncError};

verus! {

/// Whether `regex::Regex::new` accepts `pattern` as a regular expression.
pub uninterp spec fn regex_compiles(pattern: Seq<char>) -> bool;

/// Whether the regular expression that `regex::Regex::new` makes of
/// `pattern` has a match anywhere in `text`, as `regex::Regex::is_match`
/// reports it.
pub uninterp spec fn regex_matches(pattern: Seq<char>, text: Seq<char>) -> bool;

/// Calls `regex::Regex::new` on `pattern` and tells whether it gave a
/// regular expression. The outcome depends on the pattern alone.
#[verifier::external_body]
pub(crate) fn compiles(pattern: &str) -> (ok: bool)
    ensures
        ok == regex_compiles(pattern@),
{
    regex::Regex::new(pattern).is_ok()
}

/// Compiles `pattern` with `regex::Regex::new` and calls
/// `regex::Regex::is_match` on `text`: whether the expression matches
/// anywhere in the text. The outcome depends on the two texts alone.
#[verifier::external_body]
fn finds(pattern: &str, text: &str) -> (found: bool)
    requires
        regex_compiles(pattern@),
    ensures
        found == regex_matches(pattern@, text@),
{
    match regex::Regex::new(pattern) {
        Ok(expression) => expression.is_match(text),
        Err(_) => false,
    }
}

/// A regular expression, held by its source text and known to compile.
#[derive(Debug)]
pub struct Pattern {
    source: String,
}

impl View for Pattern {
    type V = Seq<char>;

    /// The source text.
    closed spec fn view(&self) -> Seq<char> {
        self.source@
    }
}

impl Pattern {
    #[verifier::type_invariant]
    spec fn inv(&self) -> bool {
        regex_compiles(self.source@)
    }

    /// Takes `source` for a regular expression, if it is one.
    pub fn new(source: &str) -> (made: Result<Pattern, GsyncError>)
        ensures
            match made {
                Ok(pattern) => regex_compiles(source@) && pattern@ == source@,
                Err(error) => !regex_compiles(source@) && error == GsyncError::Custom(
                    ErrorKind::ConfigInvalid,
                ),
            },
    {
        if compiles(source) {
            Ok(Pattern { source: source.to_owned() })
        } else {
            Err(GsyncError::Custom(ErrorKind::ConfigInvalid))
        }
    }

    /// The source text.
    pub fn as_str(&self) -> (source: &str)
        ensures
            source@ == self@,
            regex_compiles(self@),
    {
        proof {
            use_type_invariant(self);
        }
        self.source.as_str()
    }

    /// Whether the expression matches anywhere in `text`.
    pub fn is_match(&self, text: &str) -> (found: bool)
        ensures
            found == regex_matches(self@, text@),
    {
        proof {
            use_type_invariant(self);
        }
        finds(self.source.as_str(), text)
    }
}

/// What the group named `group` holds after `regex::Regex::captures` has run
/// the expression made of `pattern` on `text`, as `regex::Captures::name`
/// and `regex::Match::as_str` give it: `None` where the expression has no
/// match in `text`, `Some(None)` where it has one in which the group takes
/// no part.
pub uninterp spec fn regex_capture(pattern: Seq<char>, text: Seq<char>, group: Seq<char>) -> Option<
    Option<Seq<char>>,
>;

/// The texts that a capture holds.
pub open spec fn capture_texts(capture: Option<Option<String>>) -> Option<Option<Seq<char>>> {
    match capture {
        None => None,
        Some(None) => Some(None),
        Some(Some(text)) => Some(Some(text@)),
    }
}

/// Compiles `pattern` with `regex::Regex::new`, searches `text` with
/// `regex::Regex::captures`, and reads the group `group` with
/// `regex::Captures::name` and `regex::Match::as_str`. A pattern that does
/// not compile has no match. The outcome depends on the three texts alone.
#[verifier::external_body]
pub(crate) fn capture(pattern: &str, text: &str, group: &str) -> (found: Option<Option<String>>)
    ensures
        capture_texts(found) == if regex_compiles(pattern@) {
            regex_capture(pattern@, text@, group@)
        } else {
            None
        },
{
    match regex::Regex::new(pattern) {
        Ok(expression) => match expression.captures(text) {
            Some(groups) => match groups.name(group) {
                Some(part) => Some(Some(part.as_str().to_string())),
                None => Some(None),
            },
            None => None,
        },
        Err(_) => None,
    }
}

} // verus!
