use shibuichi::origin::{classify_host, parse_git_origin};
use shibuichi::Domain;

#[test]
fn test_parse_git_origin() {
    let domain = parse_git_origin("git@github.com:path/file.git").unwrap();
    assert_eq!(domain, "github.com");
}

// A full URL goes through the url crate's parser; if the wrapper handed its
// argument back unchanged this would fail.
#[test]
fn full_url_origin() {
    let domain = parse_git_origin("https://gitlab.com/user/repo.git").unwrap();
    assert_eq!(domain, "gitlab.com");
    assert_eq!(parse_git_origin("ssh://git@github.com/user/repo"), Some("github.com".to_string()));
}

#[test]
fn unparsable_origin() {
    assert_eq!(parse_git_origin("just a path"), None);
    assert_eq!(parse_git_origin(""), None);
}

#[test]
fn classify_hosts() {
    assert_eq!(classify_host("github.com"), Domain::Github);
    assert_eq!(classify_host("gitlab.com"), Domain::Gitlab);
    assert_eq!(classify_host("bitbucket.org"), Domain::BitBucket);
    assert_eq!(classify_host("dev.azure.com"), Domain::Azure);
    assert_eq!(classify_host("example.org"), Domain::Git);
    assert_eq!(classify_host(""), Domain::Git);
}
