use nippo::errors::RepoError;
use nippo::service::{
    authorize_owner, comment_on_post, create_post, current_identity, delete_post, post_list_page,
    stock_post, unstock_post, update_post,
};
use nippo::store::{PostAction, PostKind, Store};

const DOMAIN: &str = "https://team.example";

fn seeded(owner: u64) -> (Store, u64) {
    let mut store = Store::new();
    let (pid, _) = create_post(
        &mut store,
        owner,
        PostKind::Post,
        "Title".to_string(),
        "a\nb\nc".to_string(),
        "a,b",
        PostAction::Publish,
        DOMAIN,
    )
    .unwrap();
    (store, pid)
}

#[test]
fn identity_zero_is_anonymous() {
    assert_eq!(current_identity(0), None);
    assert_eq!(current_identity(42), Some(42));
}

#[test]
fn gate_distinguishes_anonymous_and_non_owner() {
    assert_eq!(authorize_owner(0, 5), Err(RepoError::Unauthorized));
    assert_eq!(authorize_owner(3, 5), Err(RepoError::Forbidden));
    assert_eq!(authorize_owner(5, 5), Ok(()));
}

#[test]
fn anonymous_writes_are_unauthorized() {
    let mut store = Store::new();
    let r = create_post(
        &mut store,
        0,
        PostKind::Post,
        "T".to_string(),
        "B".to_string(),
        "",
        PostAction::Publish,
        DOMAIN,
    );
    assert_eq!(r.err(), Some(RepoError::Unauthorized));
    assert_eq!(store.count_all(), 0);
    let (mut store, pid) = seeded(1);
    assert_eq!(stock_post(&mut store, 0, pid), Err(RepoError::Unauthorized));
    assert_eq!(unstock_post(&mut store, 0, pid), Err(RepoError::Unauthorized));
}

#[test]
fn publishing_a_post_notifies_with_the_body() {
    let mut store = Store::new();
    let (pid, note) = create_post(
        &mut store,
        1,
        PostKind::Post,
        "T".to_string(),
        "B".to_string(),
        "",
        PostAction::Publish,
        DOMAIN,
    )
    .unwrap();
    let note = note.unwrap();
    assert_eq!(note.title, "New post");
    assert_eq!(note.detail, "B");
    assert_eq!(note.actor_id, 1);
    assert_eq!(note.link, format!("{}/post/show/{}", DOMAIN, pid));
}

#[test]
fn saving_a_draft_stays_silent() {
    let mut store = Store::new();
    let (_, note) = create_post(
        &mut store,
        1,
        PostKind::Post,
        "T".to_string(),
        "B".to_string(),
        "",
        PostAction::Save,
        DOMAIN,
    )
    .unwrap();
    assert!(note.is_none());
}

#[test]
fn republishing_notifies_with_the_rendered_diff() {
    let (mut store, pid) = seeded(1);
    let note = update_post(
        &mut store,
        1,
        pid,
        "Title".to_string(),
        "a\nx\nc".to_string(),
        "a,b",
        PostAction::Publish,
        DOMAIN,
    )
    .unwrap()
    .unwrap();
    assert_eq!(note.title, "Edit post");
    assert_eq!(note.detail, "-b\n+x\n");
    assert_eq!(note.link, format!("{}/post/show/{}", DOMAIN, pid));
}

#[test]
fn non_owner_update_is_forbidden_and_changes_nothing() {
    let (mut store, pid) = seeded(1);
    let r = update_post(
        &mut store,
        2,
        pid,
        "Hijacked".to_string(),
        "x".to_string(),
        "",
        PostAction::Publish,
        DOMAIN,
    );
    assert_eq!(r.err(), Some(RepoError::Forbidden));
    let p = store.get(pid).unwrap();
    assert_eq!(p.title, "Title");
    assert_eq!(p.body, "a\nb\nc");
    assert_eq!(p.tags, vec!["a".to_string(), "b".to_string()]);
}

#[test]
fn non_owner_delete_is_forbidden_and_changes_nothing() {
    let (mut store, pid) = seeded(1);
    let r = delete_post(&mut store, 2, pid);
    assert_eq!(r, Err(RepoError::Forbidden));
    assert!(store.get(pid).is_ok());
    assert_eq!(store.count_all(), 1);
}

#[test]
fn owner_delete_succeeds() {
    let (mut store, pid) = seeded(1);
    assert_eq!(delete_post(&mut store, 1, pid), Ok(()));
    assert_eq!(store.count_all(), 0);
}

#[test]
fn a_new_comment_always_notifies() {
    let (mut store, pid) = seeded(1);
    let (_, note) = comment_on_post(&mut store, 2, pid, "nice".to_string(), DOMAIN).unwrap();
    assert_eq!(note.title, "New comment");
    assert_eq!(note.detail, "nice");
    assert_eq!(note.actor_id, 2);
    assert_eq!(note.link, format!("{}/post/show/{}", DOMAIN, pid));
}

#[test]
fn page_numbers_follow_the_views() {
    let mut store = Store::new();
    for i in 0..20 {
        create_post(
            &mut store,
            1,
            PostKind::Post,
            format!("t{}", i),
            "b".to_string(),
            "",
            PostAction::Publish,
            DOMAIN,
        )
        .unwrap();
    }
    let page1 = post_list_page(&store, PostKind::Post, 1, 10);
    assert_eq!(page1.posts.len(), 10);
    assert_eq!(page1.current_page, 1);
    // count / page_size + 1 over-counts on the exact multiple: 3, not 2
    assert_eq!(page1.total_page, 3);
    assert_eq!(page1.next_page, 2);
    assert_eq!(page1.prev_page, 0);
    let page3 = post_list_page(&store, PostKind::Post, 3, 10);
    assert_eq!(page3.posts.len(), 0);
    let clamped = post_list_page(&store, PostKind::Post, 0, 10);
    assert_eq!(clamped.current_page, 1);
    assert_eq!(clamped.posts.len(), 10);
}
