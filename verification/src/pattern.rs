//! Regular expressions, compiled once and applied many times.
//!
//! The `regex` crate does the compiling and the matching. What it answers is a
//! function of the expression's text and of the text it is applied to, and has a
//! name here; nothing is said of the language of expressions itself.
use vstd::prelude::*;
use crate::text::{opt_view, views};

verus! {

/// A compiled expression of the `regex` crate.
#[verifier::external_type_specification]
#[verifier::external_body]
pub struct ExRegex(regex::Regex);

/// A compiled set of expressions of the `regex` crate.
#[verifier::external_type_specification]
#[verifier::external_body]
pub struct ExRegexSet(regex::RegexSet);

/// The error `regex::Regex::new` reports for an expression, or none where it compiles.
pub uninterp spec fn regex_error(source: Seq<char>) -> Option<Seq<char>>;

/// The error `regex::RegexSet::new` reports for a list of expressions, or none where it compiles.
pub uninterp spec fn regex_set_error(sources: Seq<Seq<char>>) -> Option<Seq<char>>;

/// Whether `regex::Regex::is_match` finds the expression in a text.
pub uninterp spec fn regex_matches(source: Seq<char>, text: Seq<char>) -> bool;

/// The groups `regex::Regex::captures` finds, the whole match first.
pub uninterp spec fn regex_captures(source: Seq<char>, text: Seq<char>) -> Option<
    Seq<Option<Seq<char>>>,
>;

/// The text `regex::Regex::replace_all` gives back.
pub uninterp spec fn regex_replaced(
    source: Seq<char>,
    text: Seq<char>,
    replacement: Seq<char>,
) -> Seq<char>;

/// What the groups of a match hold.
pub open spec fn groups(v: Seq<Option<String>>) -> Seq<Option<Seq<char>>> {
    Seq::new(v.len(), |i: int| opt_view(v[i]))
}

/// An expression that compiled. Its view is the text of the expression.
///
/// The fields are private and `Expression::compile` is the one place that fills
/// them, so the compiled expression is always that of the text beside it.
#[derive(Debug)]
pub struct Expression {
    source: String,
    regex: regex::Regex,
}

impl View for Expression {
    type V = Seq<char>;

    closed spec fn view(&self) -> Seq<char> {
        self.source@
    }
}

impl Expression {
    /// `regex::Regex::new`: compiles an expression, or reports why it is none.
    /// The report is the error's display text.
    #[verifier::external_body]
    pub(crate) fn compile(source: &str) -> (r: Result<Expression, String>)
        ensures
            match r {
                Ok(p) => p@ == source@ && regex_error(source@) is None,
                Err(e) => regex_error(source@) == Some(e@),
            },
    {
        match regex::Regex::new(source) {
            Ok(regex) => Ok(Expression { source: source.to_string(), regex }),
            Err(error) => Err(error.to_string()),
        }
    }

    /// `regex::Regex::is_match`: whether the expression matches somewhere in `text`.
    #[verifier::external_body]
    pub(crate) fn is_match(&self, text: &str) -> (r: bool)
        ensures
            r == regex_matches(self@, text@),
    {
        self.regex.is_match(text)
    }

    /// `regex::Regex::captures`: the groups of the first match in `text`. There
    /// are groups exactly where there is a match.
    #[verifier::external_body]
    pub(crate) fn captures(&self, text: &str) -> (r: Option<Vec<Option<String>>>)
        ensures
            match r {
                Some(v) => regex_captures(self@, text@) == Some(groups(v@)),
                None => regex_captures(self@, text@) is None,
            },
            r is Some <==> regex_matches(self@, text@),
    {
        self.regex.captures(text).map(
            |found| found.iter().map(|group| group.map(|m| m.as_str().to_string())).collect(),
        )
    }

    /// `regex::Regex::replace_all`: every match in `text` replaced, with `$1`
    /// and the like in `replacement` standing for the match's groups.
    #[verifier::external_body]
    pub(crate) fn replace_all(&self, text: &str, replacement: &str) -> (r: String)
        ensures
            r@ == regex_replaced(self@, text@, replacement@),
    {
        self.regex.replace_all(text, replacement).into_owned()
    }
}

/// A list of expressions that compiled together. Its view is their texts.
///
/// The fields are private and `ExpressionSet::compile` is the one place that fills
/// them, so the compiled set is always that of the texts beside it.
#[derive(Debug)]
pub struct ExpressionSet {
    sources: Vec<String>,
    set: regex::RegexSet,
}

impl View for ExpressionSet {
    type V = Seq<Seq<char>>;

    closed spec fn view(&self) -> Seq<Seq<char>> {
        views(self.sources@)
    }
}

/// Whether one of the expressions matches somewhere in `text`.
pub open spec fn any_matches(sources: Seq<Seq<char>>, text: Seq<char>) -> bool {
    exists|i: int| 0 <= i < sources.len() && regex_matches(#[trigger] sources[i], text)
}

impl ExpressionSet {
    /// `regex::RegexSet::new`: compiles a list of expressions, or reports why
    /// that failed. The report is the error's display text.
    #[verifier::external_body]
    pub(crate) fn compile(sources: &Vec<String>) -> (r: Result<ExpressionSet, String>)
        ensures
            match r {
                Ok(p) => p@ == views(sources@) && regex_set_error(views(sources@)) is None,
                Err(e) => regex_set_error(views(sources@)) == Some(e@),
            },
    {
        match regex::RegexSet::new(sources) {
            Ok(set) => Ok(ExpressionSet { sources: sources.clone(), set }),
            Err(error) => Err(error.to_string()),
        }
    }

    /// `regex::RegexSet::is_match`: whether one of the expressions of the set
    /// matches somewhere in `text`.
    #[verifier::external_body]
    pub(crate) fn is_match(&self, text: &str) -> (r: bool)
        ensures
            r == any_matches(self@, text@),
    {
        self.set.is_match(text)
    }
}

} // verus!
