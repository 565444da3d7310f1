use shibuichi::util::{ContainsChar, ParsedScpUrl};

#[test]
fn git_standard() {
    let parsed = ParsedScpUrl::parse("git@github.com:username/repo.git").unwrap();
    assert_eq!(parsed.username(), "git");
    assert_eq!(parsed.host(), "github.com");
    assert_eq!(parsed.path(), "username/repo.git");
}

#[test]
fn degenerate() {
    let parsed = ParsedScpUrl::parse("@:").unwrap();
    assert_eq!(parsed.username(), "");
    assert_eq!(parsed.host(), "");
    assert_eq!(parsed.path(), "");
}

#[test]
fn parse_errors() {
    assert_eq!(ParsedScpUrl::parse(""), None);
    assert_eq!(ParsedScpUrl::parse(":"), None);
    assert_eq!(ParsedScpUrl::parse("@"), None);
    assert_eq!(ParsedScpUrl::parse("g:t@github.com:path"), None);
    assert_eq!(ParsedScpUrl::parse("git@github@com:path"), None);
    assert_eq!(ParsedScpUrl::parse("git@github.com:p:th"), None);
    assert_eq!(ParsedScpUrl::parse("git@github.com:p@th"), None);
}

#[test]
fn contains_char_impls() {
    assert!('a'.contains('a'));
    assert!(!'a'.contains('b'));
    let pair = ['.', ')'];
    assert!(pair.contains('.'));
    assert!(pair.contains(')'));
    assert!(!pair.contains('x'));
    let many: Vec<char> = vec!['q', 'r', 's'];
    assert!(many.contains('r'));
    assert!(!many.contains('z'));
}
