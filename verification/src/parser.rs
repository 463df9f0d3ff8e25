//! The executable side: greedy scanners for the per-rule character classes,
//! the `URLParser` entry point that matches a single rule against a whole
//! input, and the `ParsedURL` builder that assembles the component spans of
//! a successful `url` match into a record.

use vstd::prelude::*;

use crate::grammar::Rule;
use crate::grammar::UrlParts;
use crate::grammar::body_char;
use crate::grammar::body_pred;
use crate::grammar::lemma_scan_while;
use crate::grammar::lemma_scan_while_is;
use crate::grammar::parse_spec;
use crate::grammar::rule_matches;
use crate::grammar::scan_while;

verus! {

/// The errors a parse can surface.
#[derive(Debug)]
pub enum ParseError {
    /// The input does not conform to the `url` grammar.
    ParsingFailed,
    /// A matched sub-rule was none of the five component rules.  Unreachable
    /// for the grammar as defined; retained as a defensive integrity check.
    UnexpectedRule(String),
}

impl ParseError {
    /// A human-readable message for this error kind.
    pub fn message(&self) -> (m: String)
        ensures
            match self {
                ParseError::ParsingFailed => m@ == "Failed to parse URL"@,
                ParseError::UnexpectedRule(rule) => m@ == "Unexpected rule encountered: "@
                    + rule@,
            },
    {
        match self {
            ParseError::ParsingFailed => String::from_str("Failed to parse URL"),
            ParseError::UnexpectedRule(rule) => String::from_str(
                "Unexpected rule encountered: ",
            ).concat(rule.as_str()),
        }
    }
}

/// Whether `c` belongs to the body character class of rule `r`.
fn is_body_char(r: Rule, c: char) -> (b: bool)
    ensures
        b == body_char(r, c),
{
    match r {
        Rule::scheme => {
            let u = c as u32;
            ('a' as u32 <= u && u <= 'z' as u32) || ('A' as u32 <= u && u <= 'Z' as u32) || (
            '0' as u32 <= u && u <= '9' as u32)
        },
        Rule::domain => c != '/' && c != '?',
        Rule::path => c != '?' && c != '#',
        Rule::query => c != '#',
        Rule::fragment => true,
        Rule::url => false,
    }
}

/// The end of the greedy run of body characters of rule `r` that starts at
/// `from` in `s`.
fn scan_body(s: &str, from: usize, r: Rule) -> (end: usize)
    requires
        from as int <= s@.len(),
    ensures
        end == scan_while(s@, from as int, body_pred(r)),
        from <= end <= s@.len(),
{
    let len = s.unicode_len();
    let mut i = from;
    while i < len && is_body_char(r, s.get_char(i))
        invariant
            from <= i <= len,
            len == s@.len(),
            forall|j: int| from <= j < i ==> #[trigger] body_pred(r)(s@[j]),
        decreases len - i,
    {
        i = i + 1;
    }
    proof {
        assert(i < len ==> !body_pred(r)(s@[i as int]));
        lemma_scan_while_is(s@, from as int, body_pred(r), i as int);
    }
    i
}

/// The grammar engine's entry point: match one named rule against an input.
pub struct URLParser;

impl URLParser {
    /// Matches rule `rule` against the whole of `input`: `Ok(())` exactly
    /// when the rule consumes the entire input, `Err(ParsingFailed)`
    /// otherwise.
    pub fn parse(rule: Rule, input: &str) -> (r: Result<(), ParseError>)
        ensures
            match r {
                Ok(()) => rule_matches(rule, input@),
                Err(e) => !rule_matches(rule, input@) && e is ParsingFailed,
            },
    {
        let len = input.unicode_len();
        match rule {
            Rule::scheme | Rule::domain => {
                let end = scan_body(input, 0, rule);
                proof {
                    lemma_scan_while(input@, 0, body_pred(rule));
                    if end == len {
                        assert forall|i: int| 0 <= i < input@.len() implies body_char(
                            rule,
                            #[trigger] input@[i],
                        ) by {
                            assert(body_pred(rule)(input@[i]));
                        }
                    } else {
                        assert(!body_pred(rule)(input@[end as int]));
                        assert(!body_char(rule, input@[end as int]));
                    }
                }
                if len > 0 && end == len {
                    Ok(())
                } else {
                    Err(ParseError::ParsingFailed)
                }
            },
            Rule::path | Rule::query | Rule::fragment => {
                let delim = match rule {
                    Rule::path => '/',
                    Rule::query => '?',
                    _ => '#',
                };
                if len == 0 || input.get_char(0) != delim {
                    return Err(ParseError::ParsingFailed);
                }
                let end = scan_body(input, 1, rule);
                proof {
                    lemma_scan_while(input@, 1, body_pred(rule));
                    if end == len {
                        assert forall|i: int| 1 <= i < input@.len() implies body_char(
                            rule,
                            #[trigger] input@[i],
                        ) by {
                            assert(body_pred(rule)(input@[i]));
                        }
                    } else {
                        assert(!body_pred(rule)(input@[end as int]));
                        assert(!body_char(rule, input@[end as int]));
                    }
                }
                if end == len {
                    Ok(())
                } else {
                    Err(ParseError::ParsingFailed)
                }
            },
            Rule::url => match ParsedURL::parse(input) {
                Ok(_) => Ok(()),
                Err(_) => Err(ParseError::ParsingFailed),
            },
        }
    }
}

/// The parsed components of a URL.  The view of a `ParsedURL` is the
/// `UrlParts` record holding the character sequences of its fields.
#[derive(Debug)]
pub struct ParsedURL {
    /// Scheme component of the URL (for example, `http` or `https`).
    pub scheme: String,
    /// Domain part of the URL (for example, `example.com`).
    pub domain: String,
    /// Optional path component, with its leading `/`.
    pub path: Option<String>,
    /// Optional query component, with its leading `?`.
    pub query: Option<String>,
    /// Optional fragment component, with its leading `#`.
    pub fragment: Option<String>,
}

impl View for ParsedURL {
    type V = UrlParts;

    open spec fn view(&self) -> UrlParts {
        UrlParts {
            scheme: self.scheme@,
            domain: self.domain@,
            path: match self.path {
                Some(p) => Some(p@),
                None => None,
            },
            query: match self.query {
                Some(q) => Some(q@),
                None => None,
            },
            fragment: match self.fragment {
                Some(f) => Some(f@),
                None => None,
            },
        }
    }
}

impl ParsedURL {
    /// Parses a URL string into its components.
    ///
    /// The result is exactly the decomposition that the `url` grammar rule
    /// assigns to the input: the greedy alphanumeric scheme, the literal
    /// `://`, the greedy domain, and the optional `path`, `query` and
    /// `fragment` components in that order, each keeping its leading
    /// delimiter.  Inputs the grammar does not match are rejected with
    /// `ParsingFailed`.
    pub fn parse(url: &str) -> (r: Result<Self, ParseError>)
        ensures
            match r {
                Ok(p) => parse_spec(url@) == Some(p@),
                Err(e) => parse_spec(url@) is None && e is ParsingFailed,
            },
    {
        let len = url.unicode_len();
        let se = scan_body(url, 0, Rule::scheme);
        if se == 0 {
            return Err(ParseError::ParsingFailed);
        }
        if len - se < 3 {
            return Err(ParseError::ParsingFailed);
        }
        if !(url.get_char(se) == ':' && url.get_char(se + 1) == '/' && url.get_char(se + 2)
            == '/') {
            return Err(ParseError::ParsingFailed);
        }
        let ds = se + 3;
        let de = scan_body(url, ds, Rule::domain);
        if de == ds {
            return Err(ParseError::ParsingFailed);
        }
        let mut pos = de;
        let path = if pos < len && url.get_char(pos) == '/' {
            let pe = scan_body(url, pos + 1, Rule::path);
            let p = url.substring_char(pos, pe).to_owned();
            pos = pe;
            Some(p)
        } else {
            None
        };
        let query = if pos < len && url.get_char(pos) == '?' {
            let qe = scan_body(url, pos + 1, Rule::query);
            let q = url.substring_char(pos, qe).to_owned();
            pos = qe;
            Some(q)
        } else {
            None
        };
        let fragment = if pos < len && url.get_char(pos) == '#' {
            let f = url.substring_char(pos, len).to_owned();
            pos = len;
            Some(f)
        } else {
            None
        };
        if pos != len {
            return Err(ParseError::ParsingFailed);
        }
        let scheme = url.substring_char(0, se).to_owned();
        let domain = url.substring_char(ds, de).to_owned();
        Ok(ParsedURL { scheme, domain, path, query, fragment })
    }
}

} // verus!
