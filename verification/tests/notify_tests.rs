use nippo::notify::{build_notification, permalink, should_notify};
use nippo::store::{PostAction, PostKind};
use nippo::strconv::u64_to_string;

#[test]
fn decimal_rendering_is_exact() {
    assert_eq!(u64_to_string(0), "0");
    assert_eq!(u64_to_string(7), "7");
    assert_eq!(u64_to_string(90), "90");
    assert_eq!(u64_to_string(12345), "12345");
    assert_eq!(u64_to_string(u64::MAX), "18446744073709551615");
}

#[test]
fn permalinks_name_the_route_of_the_kind() {
    assert_eq!(
        permalink("https://team.example", PostKind::Post, 42),
        "https://team.example/post/show/42"
    );
    assert_eq!(
        permalink("https://team.example", PostKind::Nippo, 7),
        "https://team.example/nippo/show/7"
    );
}

#[test]
fn only_a_publish_notifies() {
    assert!(should_notify(PostAction::Publish));
    assert!(!should_notify(PostAction::Save));
}

#[test]
fn payload_carries_actor_title_detail_and_link() {
    let n = build_notification(
        "https://t.example",
        PostKind::Post,
        3,
        "New post".to_string(),
        "hello".to_string(),
        9,
    );
    assert_eq!(n.actor_id, 3);
    assert_eq!(n.title, "New post");
    assert_eq!(n.detail, "hello");
    assert_eq!(n.post_id, 9);
    assert_eq!(n.link, "https://t.example/post/show/9");
}
