use vxbot::is_reserved_name;
use vxbot::relay::{advance, plan_repost, AuthorInfo, MessageEvent, RelayOutcome, RelayStep};

fn plain_author(username: &str) -> AuthorInfo {
    AuthorInfo {
        is_bot: false,
        username: String::from(username),
        global_name: None,
        nickname: None,
        avatar_url: String::from("https://cdn.example/avatar.png"),
    }
}

fn event(author: AuthorInfo, body: &str) -> MessageEvent {
    MessageEvent { author, channel_id: 10, message_id: 20, body: String::from(body) }
}

#[test]
fn bot_author_is_skipped() {
    let mut author = plain_author("someone");
    author.is_bot = true;
    let plan = plan_repost(&event(author, "https://x.com/a"));
    assert!(plan.is_none());
}

#[test]
fn reserved_name_author_is_skipped() {
    let plan = plan_repost(&event(plain_author("vxbot"), "https://x.com/a"));
    assert!(plan.is_none());
}

#[test]
fn body_without_links_is_skipped() {
    let plan = plan_repost(&event(plain_author("someone"), "nothing to see"));
    assert!(plan.is_none());
}

#[test]
fn matching_body_yields_a_suppressed_mention_repost() {
    let plan = plan_repost(&event(plain_author("someone"), "check this out https://x.com/someuser/status/123"));
    let plan = plan.expect("a repost should be planned");
    assert_eq!(plan.body, "check this out https://vxtwitter.com/someuser/status/123");
    assert_eq!(plan.display_name, "someone");
    assert_eq!(plan.avatar_url, "https://cdn.example/avatar.png");
    assert!(plan.suppress_mentions);
}

#[test]
fn nickname_is_preferred_over_global_name_and_username() {
    let mut author = plain_author("user");
    author.global_name = Some(String::from("Globo"));
    author.nickname = Some(String::from("Nick"));
    let plan = plan_repost(&event(author, "https://x.com/a")).unwrap();
    assert_eq!(plan.display_name, "Nick");
}

#[test]
fn empty_nickname_falls_back_to_global_name() {
    let mut author = plain_author("user");
    author.global_name = Some(String::from("Globo"));
    author.nickname = Some(String::new());
    let plan = plan_repost(&event(author, "https://x.com/a")).unwrap();
    assert_eq!(plan.display_name, "Globo");
}

#[test]
fn missing_names_fall_back_to_username() {
    let plan = plan_repost(&event(plain_author("user"), "https://x.com/a")).unwrap();
    assert_eq!(plan.display_name, "user");
}

#[test]
fn identity_failure_is_terminal_before_publish() {
    let step = advance(RelayStep::AcquireIdentity, false);
    assert_eq!(step, RelayStep::Done(RelayOutcome::IdentityUnavailable));
    let stuck = advance(step, true);
    assert_eq!(stuck, RelayStep::Done(RelayOutcome::IdentityUnavailable));
}

#[test]
fn delete_happens_only_after_successful_publish() {
    let step = advance(RelayStep::AcquireIdentity, true);
    assert_eq!(step, RelayStep::Publish);
    let failed = advance(step, false);
    assert_eq!(failed, RelayStep::Done(RelayOutcome::PublishFailed));
    let published = advance(step, true);
    assert_eq!(published, RelayStep::DeleteOriginal);
    assert_eq!(advance(published, true), RelayStep::Done(RelayOutcome::Completed));
    assert_eq!(advance(published, false), RelayStep::Done(RelayOutcome::DeleteFailed));
}

#[test]
fn reserved_name_matches_exactly() {
    assert!(is_reserved_name("vxbot"));
    assert!(!is_reserved_name("vxbot2"));
    assert!(!is_reserved_name("vxbo"));
    assert!(!is_reserved_name(""));
    assert!(!is_reserved_name("VXBOT"));
}
