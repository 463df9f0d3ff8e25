use url_parser::ParseError;
use url_parser::ParsedURL;

#[test]
fn simple_url_has_scheme_and_domain_only() {
    let parsed = ParsedURL::parse("http://example.com").unwrap();
    assert_eq!(parsed.scheme, "http");
    assert_eq!(parsed.domain, "example.com");
    assert_eq!(parsed.path, None);
    assert_eq!(parsed.query, None);
    assert_eq!(parsed.fragment, None);
}

#[test]
fn full_url_has_all_components() {
    let parsed = ParsedURL::parse("http://example.com/path/to/resource?name=value#section1").unwrap();
    assert_eq!(parsed.scheme, "http");
    assert_eq!(parsed.domain, "example.com");
    assert_eq!(parsed.path.as_deref(), Some("/path/to/resource"));
    assert_eq!(parsed.query.as_deref(), Some("?name=value"));
    assert_eq!(parsed.fragment.as_deref(), Some("#section1"));
}

#[test]
fn trailing_segment_is_a_path() {
    let parsed = ParsedURL::parse("ftp://192.168.0.1/extra").unwrap();
    assert_eq!(parsed.scheme, "ftp");
    assert_eq!(parsed.domain, "192.168.0.1");
    assert_eq!(parsed.path.as_deref(), Some("/extra"));
    assert_eq!(parsed.query, None);
    assert_eq!(parsed.fragment, None);
}

#[test]
fn missing_double_slash_fails() {
    let result = ParsedURL::parse("https:localhost");
    assert!(matches!(result, Err(ParseError::ParsingFailed)));
}

#[test]
fn fragment_takes_rest_of_input() {
    let parsed = ParsedURL::parse("http://example.com/path#?section1").unwrap();
    assert_eq!(parsed.scheme, "http");
    assert_eq!(parsed.domain, "example.com");
    assert_eq!(parsed.path.as_deref(), Some("/path"));
    assert_eq!(parsed.query, None);
    assert_eq!(parsed.fragment.as_deref(), Some("#?section1"));
}

#[test]
fn reparsing_gives_structurally_equal_results() {
    let input = "https://example.com/a/b?x=1#frag";
    let first = ParsedURL::parse(input).unwrap();
    let second = ParsedURL::parse(input).unwrap();
    assert_eq!(first.scheme, second.scheme);
    assert_eq!(first.domain, second.domain);
    assert_eq!(first.path, second.path);
    assert_eq!(first.query, second.query);
    assert_eq!(first.fragment, second.fragment);
}

#[test]
fn query_before_path_is_all_query() {
    let parsed = ParsedURL::parse("http://x?q=1/path").unwrap();
    assert_eq!(parsed.scheme, "http");
    assert_eq!(parsed.domain, "x");
    assert_eq!(parsed.path, None);
    assert_eq!(parsed.query.as_deref(), Some("?q=1/path"));
    assert_eq!(parsed.fragment, None);
}

#[test]
fn space_is_an_ordinary_domain_character() {
    let parsed = ParsedURL::parse("http://localhost name=value").unwrap();
    assert_eq!(parsed.scheme, "http");
    assert_eq!(parsed.domain, "localhost name=value");
    assert_eq!(parsed.path, None);
    assert_eq!(parsed.query, None);
    assert_eq!(parsed.fragment, None);
}

#[test]
fn hash_before_path_is_absorbed_into_domain() {
    // The domain rule excludes only '/' and '?', so a '#' with no path or
    // query before it is consumed by the domain, not by a fragment.
    let parsed = ParsedURL::parse("http://example.com#frag").unwrap();
    assert_eq!(parsed.scheme, "http");
    assert_eq!(parsed.domain, "example.com#frag");
    assert_eq!(parsed.path, None);
    assert_eq!(parsed.query, None);
    assert_eq!(parsed.fragment, None);
}

#[test]
fn empty_scheme_fails() {
    let result = ParsedURL::parse("://example.com");
    assert!(matches!(result, Err(ParseError::ParsingFailed)));
}

#[test]
fn empty_domain_fails() {
    assert!(matches!(
        ParsedURL::parse("http://"),
        Err(ParseError::ParsingFailed)
    ));
    assert!(matches!(
        ParsedURL::parse("http:///path"),
        Err(ParseError::ParsingFailed)
    ));
    assert!(matches!(
        ParsedURL::parse("http://?q=1"),
        Err(ParseError::ParsingFailed)
    ));
}

#[test]
fn empty_input_fails() {
    assert!(matches!(
        ParsedURL::parse(""),
        Err(ParseError::ParsingFailed)
    ));
}

#[test]
fn scheme_stops_at_first_non_alphanumeric() {
    let result = ParsedURL::parse("ht-tp://example.com");
    assert!(matches!(result, Err(ParseError::ParsingFailed)));
}

#[test]
fn path_then_fragment_without_query() {
    let parsed = ParsedURL::parse("https://example.com/path#section1").unwrap();
    assert_eq!(parsed.scheme, "https");
    assert_eq!(parsed.domain, "example.com");
    assert_eq!(parsed.path.as_deref(), Some("/path"));
    assert_eq!(parsed.query, None);
    assert_eq!(parsed.fragment.as_deref(), Some("#section1"));
}

#[test]
fn query_without_path() {
    let parsed = ParsedURL::parse("http://localhost?name=value").unwrap();
    assert_eq!(parsed.scheme, "http");
    assert_eq!(parsed.domain, "localhost");
    assert_eq!(parsed.path, None);
    assert_eq!(parsed.query.as_deref(), Some("?name=value"));
    assert_eq!(parsed.fragment, None);
}

#[test]
fn empty_path_query_and_fragment_bodies() {
    let parsed = ParsedURL::parse("http://a/?#").unwrap();
    assert_eq!(parsed.scheme, "http");
    assert_eq!(parsed.domain, "a");
    assert_eq!(parsed.path.as_deref(), Some("/"));
    assert_eq!(parsed.query.as_deref(), Some("?"));
    assert_eq!(parsed.fragment.as_deref(), Some("#"));
}

#[test]
fn error_messages_name_the_kind() {
    assert_eq!(ParseError::ParsingFailed.message(), "Failed to parse URL");
    let err = ParseError::UnexpectedRule(String::from("WHITESPACE"));
    assert_eq!(err.message(), "Unexpected rule encountered: WHITESPACE");
}
