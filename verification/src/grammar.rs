//! The grammar: named recognition rules for each URL component and the
//! decomposition of a whole input into component spans.
//!
//! Each component rule is a delimiter (none for `scheme` and `domain`)
//! followed by a greedy run of characters drawn from a per-rule class.  The
//! composite `url` rule is the sequence `scheme ~ "://" ~ domain ~ path? ~
//! query? ~ fragment?`, and it matches only if it consumes the whole input.

use vstd::prelude::*;

verus! {

/// The named productions of the URL grammar.
#[allow(non_camel_case_types)]
#[derive(Debug, Clone, Copy)]
pub enum Rule {
    /// One or more ASCII alphanumeric characters.
    scheme,
    /// One or more characters, none of which is `/` or `?`.
    domain,
    /// A literal `/` followed by characters other than `?` and `#`.
    path,
    /// A literal `?` followed by characters other than `#`.
    query,
    /// A literal `#` followed by any characters, to the end of the input.
    fragment,
    /// `scheme ~ "://" ~ domain ~ path? ~ query? ~ fragment?`, whole input.
    url,
}

/// An ASCII alphanumeric character: `a`-`z`, `A`-`Z` or `0`-`9`.
pub open spec fn is_alnum(c: char) -> bool {
    ('a' as u32 <= c as u32 && c as u32 <= 'z' as u32)
        || ('A' as u32 <= c as u32 && c as u32 <= 'Z' as u32)
        || ('0' as u32 <= c as u32 && c as u32 <= '9' as u32)
}

/// The character class that the body of each component rule draws from.
/// The body is what follows the rule's leading delimiter; `scheme` and
/// `domain` have no delimiter, so their body is the whole match.  The
/// composite `url` rule has no character class of its own.
pub open spec fn body_char(r: Rule, c: char) -> bool {
    match r {
        Rule::scheme => is_alnum(c),
        Rule::domain => c != '/' && c != '?',
        Rule::path => c != '?' && c != '#',
        Rule::query => c != '#',
        Rule::fragment => true,
        Rule::url => false,
    }
}

/// The body class of a rule as a predicate value, for use with `scan_while`.
pub open spec fn body_pred(r: Rule) -> spec_fn(char) -> bool {
    |c: char| body_char(r, c)
}

/// The end of the greedy run of characters satisfying `keep` that starts at
/// position `i` of `s`: the first position at or after `i` whose character
/// fails `keep`, or `s.len()` if none does.
pub open spec fn scan_while(s: Seq<char>, i: int, keep: spec_fn(char) -> bool) -> int
    recommends
        0 <= i <= s.len(),
    decreases s.len() - i,
{
    if i < s.len() && keep(s[i]) {
        scan_while(s, i + 1, keep)
    } else {
        i
    }
}

/// What a greedy scan guarantees: it stays within bounds, every character it
/// passed over satisfies `keep`, and the character it stopped on (if any)
/// does not.
pub proof fn lemma_scan_while(s: Seq<char>, i: int, keep: spec_fn(char) -> bool)
    requires
        0 <= i <= s.len(),
    ensures
        i <= scan_while(s, i, keep) <= s.len(),
        forall|j: int| i <= j < scan_while(s, i, keep) ==> #[trigger] keep(s[j]),
        scan_while(s, i, keep) < s.len() ==> !keep(s[scan_while(s, i, keep)]),
    decreases s.len() - i,
{
    if i < s.len() && keep(s[i]) {
        lemma_scan_while(s, i + 1, keep);
    }
}

/// The converse characterization: a position `k` with only `keep` characters
/// before it (from `i`) and a failing character at it (or the end of `s`) is
/// exactly where the scan from `i` stops.
pub proof fn lemma_scan_while_is(s: Seq<char>, i: int, keep: spec_fn(char) -> bool, k: int)
    requires
        0 <= i <= k <= s.len(),
        forall|j: int| i <= j < k ==> #[trigger] keep(s[j]),
        k < s.len() ==> !keep(s[k]),
    ensures
        scan_while(s, i, keep) == k,
    decreases s.len() - i,
{
    if i < s.len() && keep(s[i]) {
        lemma_scan_while_is(s, i + 1, keep, k);
    }
}

/// The components of a successfully parsed URL, at the specification level.
/// `scheme` and `domain` are always present; the three trailing components
/// keep their leading delimiter when present.
pub struct UrlParts {
    pub scheme: Seq<char>,
    pub domain: Seq<char>,
    pub path: Option<Seq<char>>,
    pub query: Option<Seq<char>>,
    pub fragment: Option<Seq<char>>,
}

/// The decomposition of `s` under the `url` rule: the scheme is the greedy
/// alphanumeric run from the start, `://` must follow, the domain is the
/// greedy run of non-`/`-non-`?` characters after it, and each optional
/// component starts at its delimiter and runs greedily within its class.
/// `None` when the scheme or domain is empty, the separator is missing, or
/// input remains after the last component.
pub open spec fn parse_spec(s: Seq<char>) -> Option<UrlParts> {
    let se = scan_while(s, 0, body_pred(Rule::scheme));
    if se == 0 {
        None
    } else if !(se + 3 <= s.len() && s[se] == ':' && s[se + 1] == '/' && s[se + 2] == '/') {
        None
    } else {
        let ds = se + 3;
        let de = scan_while(s, ds, body_pred(Rule::domain));
        if de == ds {
            None
        } else {
            let pe = if de < s.len() && s[de] == '/' {
                scan_while(s, de + 1, body_pred(Rule::path))
            } else {
                de
            };
            let qe = if pe < s.len() && s[pe] == '?' {
                scan_while(s, pe + 1, body_pred(Rule::query))
            } else {
                pe
            };
            let fe = if qe < s.len() && s[qe] == '#' {
                s.len() as int
            } else {
                qe
            };
            if fe != s.len() {
                None
            } else {
                Some(
                    UrlParts {
                        scheme: s.subrange(0, se),
                        domain: s.subrange(ds, de),
                        path: if de < pe {
                            Some(s.subrange(de, pe))
                        } else {
                            None
                        },
                        query: if pe < qe {
                            Some(s.subrange(pe, qe))
                        } else {
                            None
                        },
                        fragment: if qe < fe {
                            Some(s.subrange(qe, fe))
                        } else {
                            None
                        },
                    },
                )
            }
        }
    }
}

/// The literal `://` separator that must follow the scheme.
pub open spec fn sep() -> Seq<char> {
    seq![':', '/', '/']
}

/// Whether rule `r` matches the whole of `s`: the delimiter (if the rule has
/// one) at the front, body characters everywhere else, and at least the
/// delimiter or one body character present.
pub open spec fn rule_matches(r: Rule, s: Seq<char>) -> bool {
    match r {
        Rule::scheme | Rule::domain => s.len() > 0 && forall|i: int|
            0 <= i < s.len() ==> body_char(r, #[trigger] s[i]),
        Rule::path => s.len() > 0 && s[0] == '/' && forall|i: int|
            1 <= i < s.len() ==> body_char(r, #[trigger] s[i]),
        Rule::query => s.len() > 0 && s[0] == '?' && forall|i: int|
            1 <= i < s.len() ==> body_char(r, #[trigger] s[i]),
        Rule::fragment => s.len() > 0 && s[0] == '#',
        Rule::url => parse_spec(s) is Some,
    }
}

/// Law: an input without the literal `://` anywhere in it cannot parse,
/// whatever else it contains.
pub proof fn lemma_missing_separator_fails(s: Seq<char>)
    requires
        forall|i: int| 0 <= i && i + 3 <= s.len() ==> #[trigger] s.subrange(i, i + 3) != sep(),
    ensures
        parse_spec(s) is None,
{
    if parse_spec(s) is Some {
        let se = scan_while(s, 0, body_pred(Rule::scheme));
        lemma_scan_while(s, 0, body_pred(Rule::scheme));
        assert(se + 3 <= s.len() && s[se] == ':' && s[se + 1] == '/' && s[se + 2] == '/');
        assert(s.subrange(se, se + 3) =~= sep());
        assert(false);
    }
}

/// Law: for any valid scheme and domain, `scheme ++ "://" ++ domain` parses;
/// the two mandatory fields are exactly the given parts and no optional
/// component is set.  The domain may contain any character other than `/`
/// and `?` — spaces and even `#` included.
pub proof fn lemma_scheme_domain_parses(scheme: Seq<char>, domain: Seq<char>)
    requires
        rule_matches(Rule::scheme, scheme),
        rule_matches(Rule::domain, domain),
    ensures
        parse_spec(scheme + sep() + domain) == Some(
            UrlParts { scheme, domain, path: None, query: None, fragment: None },
        ),
{
    let s = scheme + sep() + domain;
    let sl = scheme.len() as int;
    let ds = sl + 3;
    let n = s.len() as int;
    assert forall|j: int| 0 <= j < sl implies body_pred(Rule::scheme)(s[j]) by {
        assert(s[j] == scheme[j]);
        assert(body_char(Rule::scheme, scheme[j]));
    }
    assert(s[sl] == ':' && s[sl + 1] == '/' && s[sl + 2] == '/');
    assert(!body_pred(Rule::scheme)(s[sl]));
    lemma_scan_while_is(s, 0, body_pred(Rule::scheme), sl);
    assert forall|j: int| ds <= j < n implies body_pred(Rule::domain)(s[j]) by {
        assert(s[j] == domain[j - ds]);
        assert(body_char(Rule::domain, domain[j - ds]));
    }
    lemma_scan_while_is(s, ds, body_pred(Rule::domain), n);
    assert(s.subrange(0, sl) =~= scheme);
    assert(s.subrange(ds, n) =~= domain);
}

/// Law: component order is enforced.  A `?` standing immediately after the
/// domain starts the query, and everything from it up to a `#` or the end
/// of the input — `/` characters included — belongs to that query; no path
/// component is recognized after it.
pub proof fn lemma_query_before_path(scheme: Seq<char>, domain: Seq<char>, rest: Seq<char>)
    requires
        rule_matches(Rule::scheme, scheme),
        rule_matches(Rule::domain, domain),
        forall|i: int| 0 <= i < rest.len() ==> #[trigger] rest[i] != '#',
    ensures
        parse_spec(scheme + sep() + domain + seq!['?'] + rest) == Some(
            UrlParts { scheme, domain, path: None, query: Some(seq!['?'] + rest), fragment: None },
        ),
{
    let s = scheme + sep() + domain + seq!['?'] + rest;
    let sl = scheme.len() as int;
    let ds = sl + 3;
    let de = ds + domain.len() as int;
    let n = s.len() as int;
    assert forall|j: int| 0 <= j < sl implies body_pred(Rule::scheme)(s[j]) by {
        assert(s[j] == scheme[j]);
        assert(body_char(Rule::scheme, scheme[j]));
    }
    assert(s[sl] == ':' && s[sl + 1] == '/' && s[sl + 2] == '/');
    assert(!body_pred(Rule::scheme)(s[sl]));
    lemma_scan_while_is(s, 0, body_pred(Rule::scheme), sl);
    assert forall|j: int| ds <= j < de implies body_pred(Rule::domain)(s[j]) by {
        assert(s[j] == domain[j - ds]);
        assert(body_char(Rule::domain, domain[j - ds]));
    }
    assert(s[de] == '?');
    assert(!body_pred(Rule::domain)(s[de]));
    lemma_scan_while_is(s, ds, body_pred(Rule::domain), de);
    assert forall|j: int| de + 1 <= j < n implies body_pred(Rule::query)(s[j]) by {
        assert(s[j] == rest[j - (de + 1)]);
    }
    lemma_scan_while_is(s, de + 1, body_pred(Rule::query), n);
    assert(s.subrange(0, sl) =~= scheme);
    assert(s.subrange(ds, de) =~= domain);
    assert(s.subrange(de, n) =~= seq!['?'] + rest);
}

/// An optional component, or nothing where it is absent.
pub open spec fn opt_or_empty(o: Option<Seq<char>>) -> Seq<char> {
    match o {
        Some(x) => x,
        None => Seq::empty(),
    }
}

/// The components of a parse result re-assembled in grammar order.
pub open spec fn unparse(p: UrlParts) -> Seq<char> {
    p.scheme + sep() + p.domain + opt_or_empty(p.path) + opt_or_empty(p.query) + opt_or_empty(
        p.fragment,
    )
}

/// Law: a successful parse is a faithful decomposition of its input.  Each
/// recovered component matches its own grammar rule, and re-assembling the
/// components in order — scheme, `://`, domain, then the optional
/// components that are present — reproduces the input exactly.
pub proof fn lemma_parse_is_decomposition(s: Seq<char>)
    requires
        parse_spec(s) is Some,
    ensures
        rule_matches(Rule::scheme, parse_spec(s)->Some_0.scheme),
        rule_matches(Rule::domain, parse_spec(s)->Some_0.domain),
        parse_spec(s)->Some_0.path matches Some(x) ==> rule_matches(Rule::path, x),
        parse_spec(s)->Some_0.query matches Some(x) ==> rule_matches(Rule::query, x),
        parse_spec(s)->Some_0.fragment matches Some(x) ==> rule_matches(Rule::fragment, x),
        unparse(parse_spec(s)->Some_0) == s,
{
    let p = parse_spec(s)->Some_0;
    let n = s.len() as int;
    let se = scan_while(s, 0, body_pred(Rule::scheme));
    lemma_scan_while(s, 0, body_pred(Rule::scheme));
    let ds = se + 3;
    let de = scan_while(s, ds, body_pred(Rule::domain));
    lemma_scan_while(s, ds, body_pred(Rule::domain));
    let pe = if de < n && s[de] == '/' {
        scan_while(s, de + 1, body_pred(Rule::path))
    } else {
        de
    };
    let qe = if pe < n && s[pe] == '?' {
        scan_while(s, pe + 1, body_pred(Rule::query))
    } else {
        pe
    };
    if de < n && s[de] == '/' {
        lemma_scan_while(s, de + 1, body_pred(Rule::path));
    }
    if pe < n && s[pe] == '?' {
        lemma_scan_while(s, pe + 1, body_pred(Rule::query));
    }
    assert forall|i: int| 0 <= i < p.scheme.len() implies body_char(
        Rule::scheme,
        #[trigger] p.scheme[i],
    ) by {
        assert(p.scheme[i] == s[i]);
        assert(body_pred(Rule::scheme)(s[i]));
    }
    assert forall|i: int| 0 <= i < p.domain.len() implies body_char(
        Rule::domain,
        #[trigger] p.domain[i],
    ) by {
        assert(p.domain[i] == s[ds + i]);
        assert(body_pred(Rule::domain)(s[ds + i]));
    }
    match p.path {
        Some(x) => {
            assert(x[0] == s[de] && s[de] == '/');
            assert forall|i: int| 1 <= i < x.len() implies body_char(
                Rule::path,
                #[trigger] x[i],
            ) by {
                assert(x[i] == s[de + i]);
                assert(body_pred(Rule::path)(s[de + i]));
            }
        },
        None => {},
    }
    match p.query {
        Some(x) => {
            assert(x[0] == s[pe] && s[pe] == '?');
            assert forall|i: int| 1 <= i < x.len() implies body_char(
                Rule::query,
                #[trigger] x[i],
            ) by {
                assert(x[i] == s[pe + i]);
                assert(body_pred(Rule::query)(s[pe + i]));
            }
        },
        None => {},
    }
    match p.fragment {
        Some(x) => {
            assert(x[0] == s[qe] && s[qe] == '#');
        },
        None => {},
    }
    assert(unparse(p) =~= s);
}

/// Law: parsing is a pure function of the input characters, so parsing the
/// same input twice resolves to the same decomposition.  Together with the
/// contract of `ParsedURL::parse`, which ties each result to `parse_spec`
/// of its input, this makes repeated parses structurally equal.
pub proof fn lemma_parse_deterministic(s1: Seq<char>, s2: Seq<char>)
    requires
        s1 == s2,
    ensures
        parse_spec(s1) == parse_spec(s2),
{
}

} // verus!
