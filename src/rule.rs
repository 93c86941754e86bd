use vstd::prelude::*;

use regex::Regex;
use vstd::string::StringExecFns;

verus! {

#[verifier::external_type_specification]
#[verifier::external_body]
pub struct ExRegex(regex::Regex);

/// Relies on `Clone for regex::Regex`: the copy is the same compiled regex.
pub assume_specification[ <regex::Regex as Clone>::clone ](r: &regex::Regex) -> regex::Regex;

/// The text of the error that `regex::Regex::new` reports on the pattern
/// text `p`, or `None` where it accepts `p`.
pub uninterp spec fn regex_error(p: Seq<char>) -> Option<Seq<char>>;

/// Whether `regex::Regex::new` accepts the pattern text `p`.
pub open spec fn regex_compiles(p: Seq<char>) -> bool {
    regex_error(p) is None
}

/// The leftmost-first match of the regex compiled from `p` in `text`, as the
/// text before it, the matched text and the text after it.
pub uninterp spec fn regex_find(p: Seq<char>, text: Seq<char>) -> Option<(Seq<char>, Seq<char>, Seq<char>)>;

/// Relies on `regex::Regex::new`, and on the `Display` text of its error:
/// it succeeds exactly on the pattern texts that it accepts.
#[verifier::external_body]
fn compile_regex(p: &str) -> (r: Result<Regex, String>)
    ensures
        match r {
            Ok(_) => regex_error(p@) is None,
            Err(e) => regex_error(p@) == Some(e@),
        },
{
    Regex::new(p).map_err(|e| e.to_string())
}

/// Relies on `regex::Regex::find` on the regex that `Rule::new` compiled from
/// `rule.source`, and on `Match::start`/`Match::end` delimiting the matched
/// text inside the haystack.
#[verifier::external_body]
fn find_in(rule: &Rule, text: &str) -> (r: Option<(String, String, String)>)
    ensures
        match r {
            Some((a, m, b)) => {
                &&& regex_find(rule.spec_source(), text@) == Some((a@, m@, b@))
                &&& a@ + m@ + b@ == text@
            },
            None => regex_find(rule.spec_source(), text@) is None,
        },
{
    rule.pattern.find(text).map(
        |m| (text[..m.start()].to_string(), m.as_str().to_string(), text[m.end()..].to_string()),
    )
}

/// The text a rule matches at the very start of `text`, with what follows
/// it: only a match that begins at the first character counts, and it may
/// be empty.
pub open spec fn prefix_match(p: Seq<char>, text: Seq<char>) -> Option<(Seq<char>, Seq<char>)> {
    match regex_find(p, text) {
        Some((a, m, b)) => if a.len() == 0 && a + m + b == text {
            Some((m, b))
        } else {
            None
        },
        None => None,
    }
}

/// A named lexical rule: a compiled regular expression and the text it was
/// compiled from.
#[derive(Clone)]
pub struct Rule {
    name: String,
    source: String,
    pattern: Regex,
}

impl Rule {
    pub closed spec fn spec_name(&self) -> Seq<char> {
        self.name@
    }

    pub closed spec fn spec_source(&self) -> Seq<char> {
        self.source@
    }

    /// A rule named `name` over the regular expression `pattern`; fails when
    /// the expression does not compile, with the regex error after
    /// "Invalid regex: ".
    pub fn new(name: &str, pattern: &str) -> (r: Result<Rule, String>)
        ensures
            r is Ok == regex_compiles(pattern@),
            r matches Ok(rule) ==> rule.spec_name() == name@ && rule.spec_source() == pattern@,
            r matches Err(msg) ==> regex_error(pattern@) matches Some(e) && msg@ == "Invalid regex: "@ + e,
    {
        match compile_regex(pattern) {
            Ok(re) => Ok(Rule { name: name.to_owned(), source: pattern.to_owned(), pattern: re }),
            Err(e) => {
                let msg = "Invalid regex: ".to_owned().concat(e.as_str());
                Err(msg)
            },
        }
    }

    pub fn name(&self) -> (r: &String)
        ensures
            r@ == self.spec_name(),
    {
        &self.name
    }

    /// A copy of this rule, with the same name and pattern text.
    pub(crate) fn duplicate(&self) -> (r: Rule)
        ensures
            r.spec_name() == self.spec_name(),
            r.spec_source() == self.spec_source(),
    {
        Rule { name: self.name.clone(), source: self.source.clone(), pattern: self.pattern.clone() }
    }

    pub fn pattern(&self) -> &Regex {
        &self.pattern
    }

    /// The text, possibly empty, this rule matches at the start of `text`,
    /// and the text after it.
    pub fn match_prefix(&self, text: &str) -> (r: Option<(String, String)>)
        ensures
            match r {
                Some((m, b)) => prefix_match(self.spec_source(), text@) == Some((m@, b@)),
                None => prefix_match(self.spec_source(), text@) is None,
            },
    {
        match find_in(self, text) {
            Some((a, m, b)) => {
                if a.as_str().is_empty() {
                    Some((m, b))
                } else {
                    None
                }
            },
            None => None,
        }
    }
}

} // verus!
