use vxbot::rewrite::rewrite;

#[test]
fn no_recognized_link_is_untouched() {
    let (needs, out) = rewrite("hello world, no links here");
    assert!(!needs);
    assert_eq!(out, "hello world, no links here");
}

#[test]
fn unrelated_url_is_untouched() {
    let (needs, out) = rewrite("see https://phoronix.com/review/123 for details");
    assert!(!needs);
    assert_eq!(out, "see https://phoronix.com/review/123 for details");
}

#[test]
fn empty_body_is_untouched() {
    let (needs, out) = rewrite("");
    assert!(!needs);
    assert_eq!(out, "");
}

#[test]
fn single_x_link_is_rewritten() {
    let (needs, out) = rewrite("check this out https://x.com/someuser/status/123");
    assert!(needs);
    assert_eq!(out, "check this out https://vxtwitter.com/someuser/status/123");
}

#[test]
fn twitter_link_is_rewritten() {
    let (needs, out) = rewrite("https://twitter.com/someuser/status/456 wow");
    assert!(needs);
    assert_eq!(out, "https://vxtwitter.com/someuser/status/456 wow");
}

#[test]
fn facebook_link_is_rewritten() {
    let (needs, out) = rewrite("https://facebook.com/pg/somepage");
    assert!(needs);
    assert_eq!(out, "https://facebed.com/pg/somepage");
}

#[test]
fn insecure_scheme_becomes_secure() {
    let (needs, out) = rewrite("http://twitter.com/abc");
    assert!(needs);
    assert_eq!(out, "https://vxtwitter.com/abc");
}

#[test]
fn subdomain_is_dropped_in_replacement() {
    let (needs, out) = rewrite("https://mobile.twitter.com/foo/bar");
    assert!(needs);
    assert_eq!(out, "https://vxtwitter.com/foo/bar");
}

#[test]
fn www_facebook_is_rewritten() {
    let (needs, out) = rewrite("https://www.facebook.com/watch?v=1");
    assert!(needs);
    assert_eq!(out, "https://facebed.com/watch?v=1");
}

#[test]
fn link_without_path_gets_no_trailing_slash() {
    let (needs, out) = rewrite("https://x.com");
    assert!(needs);
    assert_eq!(out, "https://vxtwitter.com");
}

#[test]
fn embedded_domain_in_longer_host_is_not_matched() {
    let (needs, out) = rewrite("https://notreal-x.com/status/1");
    assert!(!needs);
    assert_eq!(out, "https://notreal-x.com/status/1");
}

#[test]
fn domain_extended_on_the_right_is_not_matched() {
    let (needs, out) = rewrite("https://x.company/jobs");
    assert!(!needs);
    assert_eq!(out, "https://x.company/jobs");
}

#[test]
fn domain_followed_by_more_labels_is_not_matched() {
    let (needs, out) = rewrite("https://x.com.evil.org/a");
    assert!(!needs);
    assert_eq!(out, "https://x.com.evil.org/a");
}

#[test]
fn two_links_of_both_families_are_rewritten_in_order() {
    let (needs, out) = rewrite("https://twitter.com/a https://facebook.com/p/xyz");
    assert!(needs);
    assert_eq!(out, "https://vxtwitter.com/a https://facebed.com/p/xyz");
}

#[test]
fn two_links_of_one_family_are_rewritten_independently() {
    let (needs, out) = rewrite("a https://x.com/1 b https://twitter.com/2 c");
    assert!(needs);
    assert_eq!(out, "a https://vxtwitter.com/1 b https://vxtwitter.com/2 c");
}

#[test]
fn rewriting_its_own_output_is_a_no_op() {
    let (needs1, once) = rewrite("check this out https://x.com/someuser/status/123");
    assert!(needs1);
    let (needs2, twice) = rewrite(&once);
    assert!(!needs2);
    assert_eq!(twice, once);
}

#[test]
fn already_rewritten_link_is_untouched() {
    let (needs, out) = rewrite("https://vxtwitter.com/a and https://facebed.com/b");
    assert!(!needs);
    assert_eq!(out, "https://vxtwitter.com/a and https://facebed.com/b");
}

#[test]
fn query_suffix_is_preserved_verbatim() {
    let (needs, out) = rewrite("https://x.com/search?q=rust&src=typed");
    assert!(needs);
    assert_eq!(out, "https://vxtwitter.com/search?q=rust&src=typed");
}

#[test]
fn path_stops_at_whitespace() {
    let (needs, out) = rewrite("https://x.com/a\nplain text");
    assert!(needs);
    assert_eq!(out, "https://vxtwitter.com/a\nplain text");
}

#[test]
fn scheme_must_be_present() {
    let (needs, out) = rewrite("just twitter.com/a without a scheme");
    assert!(!needs);
    assert_eq!(out, "just twitter.com/a without a scheme");
}
