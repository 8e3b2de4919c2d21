use gateway::config::{
    commits_feed_uri, instances_list_uri, listen_address, rate_limit_warning, robots_txt, FEED_TTL,
};
use gateway::text::{chars_of, same_text, string_of};

#[test]
fn listener_follows_the_address_family() {
    assert_eq!(listen_address("[::]", "8080", false, false), "[::]:8080");
    assert_eq!(listen_address("127.0.0.1", "80", false, false), "127.0.0.1:80");
    assert_eq!(listen_address("127.0.0.1", "80", true, false), "0.0.0.0:80");
    assert_eq!(listen_address("127.0.0.1", "80", false, true), "[::]:80");
    assert_eq!(listen_address("127.0.0.1", "80", true, true), "0.0.0.0:80");
    assert_eq!(listen_address("", "", false, false), ":");
}

#[test]
fn robots_policy_follows_the_setting() {
    assert_eq!(robots_txt(true), "User-agent: *\nDisallow: /");
    assert_eq!(robots_txt(false), "User-agent: *\nDisallow: /u/\nDisallow: /user/");
}

#[test]
fn feeds_are_kept_for_ten_minutes() {
    assert_eq!(FEED_TTL, 600);
    assert_eq!(commits_feed_uri(), "https://github.com/redlib-org/redlib/commits/main.atom");
    assert!(instances_list_uri().ends_with("/instances.json"));
    assert!(commits_feed_uri().parse::<hyper::Uri>().is_ok());
    assert!(instances_list_uri().parse::<hyper::Uri>().is_ok());
}

#[test]
fn rate_limit_warning_names_the_error() {
    assert_eq!(
        rate_limit_warning("timeout"),
        "Rate limit check failed: timeout\nThis may cause issues with the rate limit.\nPlease report this error with the above information.\nhttps://github.com/redlib-org/redlib/issues/new?assignees=sigaloid&labels=bug&title=%F0%9F%90%9B+Bug+Report%3A+Rate+limit+mismatch"
    );
}

#[test]
fn text_helpers() {
    assert_eq!(chars_of("a\u{e9}b"), vec!['a', '\u{e9}', 'b']);
    assert_eq!(string_of(&vec!['a', 'b', 'c', 'd'], 1, 3), "bc");
    assert_eq!(string_of(&vec!['a'], 1, 1), "");
    assert!(same_text("etag", "etag"));
    assert!(!same_text("etag", "etags"));
    assert!(!same_text("etag", "etaG"));
    assert!(same_text("", ""));
}
