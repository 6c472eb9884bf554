use nippo::errors::RepoError;
use nippo::store::{PostAction, PostKind, PostStatus, Store};

fn new_post(store: &mut Store, owner: u64, title: &str, body: &str, tags: &str) -> u64 {
    store
        .create(
            PostKind::Post,
            owner,
            title.to_string(),
            body.to_string(),
            tags,
            PostAction::Publish,
        )
        .unwrap()
}

#[test]
fn create_then_get_round_trips() {
    let mut store = Store::new();
    let pid = new_post(&mut store, 1, "Title", "Body", "a,b");
    let p = store.get(pid).unwrap();
    assert_eq!(p.id, pid);
    assert_eq!(p.user_id, 1);
    assert_eq!(p.title, "Title");
    assert_eq!(p.body, "Body");
    assert_eq!(p.status, PostStatus::Published);
    assert_eq!(p.tags, vec!["a".to_string(), "b".to_string()]);
}

#[test]
fn create_rejects_empty_title_or_body() {
    let mut store = Store::new();
    let r = store.create(
        PostKind::Post,
        1,
        "".to_string(),
        "Body".to_string(),
        "",
        PostAction::Publish,
    );
    assert_eq!(r, Err(RepoError::Validation));
    let r = store.create(
        PostKind::Post,
        1,
        "Title".to_string(),
        "".to_string(),
        "",
        PostAction::Publish,
    );
    assert_eq!(r, Err(RepoError::Validation));
    assert_eq!(store.count_all(), 0);
}

#[test]
fn get_absent_post_is_not_found() {
    let store = Store::new();
    assert_eq!(store.get(99).err(), Some(RepoError::NotFound));
}

#[test]
fn update_replaces_tag_set_by_difference() {
    let mut store = Store::new();
    let pid = new_post(&mut store, 1, "T", "B", "a,b");
    store
        .update(
            pid,
            "T".to_string(),
            "B".to_string(),
            "b,c",
            PostAction::Publish,
        )
        .unwrap();
    let p = store.get(pid).unwrap();
    // "a" removed, "b" kept, "c" added: exactly {b, c}
    assert_eq!(p.tags, vec!["b".to_string(), "c".to_string()]);
}

#[test]
fn update_absent_post_is_not_found() {
    let mut store = Store::new();
    let r = store.update(
        5,
        "T".to_string(),
        "B".to_string(),
        "",
        PostAction::Save,
    );
    assert_eq!(r, Err(RepoError::NotFound));
}

#[test]
fn delete_removes_post_comments_and_stocks() {
    let mut store = Store::new();
    let pid = new_post(&mut store, 1, "T", "B", "a");
    store.add_comment(2, pid, "hi".to_string()).unwrap();
    store.stock(2, pid).unwrap();
    store.delete(pid).unwrap();
    assert_eq!(store.get(pid).err(), Some(RepoError::NotFound));
    assert!(store.list_by_post(pid).is_empty());
    assert!(!store.is_stocked(2, pid));
    // tags themselves are never deleted
    assert_eq!(store.tags.len(), 1);
}

#[test]
fn stock_twice_keeps_one_bookmark() {
    let mut store = Store::new();
    let pid = new_post(&mut store, 1, "T", "B", "");
    store.stock(2, pid).unwrap();
    let second = store.stock(2, pid);
    assert_eq!(second, Ok(()));
    assert_eq!(store.stocks.len(), 1);
    assert!(store.is_stocked(2, pid));
}

#[test]
fn unstock_of_absent_bookmark_is_a_silent_no_op() {
    let mut store = Store::new();
    let pid = new_post(&mut store, 1, "T", "B", "");
    let before = store.stocks.len();
    let r = store.unstock(2, pid);
    assert_eq!(r, Ok(()));
    assert_eq!(store.stocks.len(), before);
    assert!(!store.is_stocked(2, pid));
}

#[test]
fn stock_of_absent_post_is_not_found() {
    let mut store = Store::new();
    assert_eq!(store.stock(2, 99), Err(RepoError::NotFound));
}

#[test]
fn pagination_windows_fifteen_posts() {
    let mut store = Store::new();
    for i in 0..15 {
        new_post(&mut store, 1, &format!("t{}", i), "b", "");
    }
    assert_eq!(store.list(PostKind::Post, 0, 10).len(), 10);
    assert_eq!(store.list(PostKind::Post, 10, 10).len(), 5);
    assert_eq!(store.list(PostKind::Post, 20, 10).len(), 0);
}

#[test]
fn listing_is_newest_first_and_filtered_by_kind() {
    let mut store = Store::new();
    let p1 = new_post(&mut store, 1, "first", "b", "");
    let n1 = store
        .create(
            PostKind::Nippo,
            1,
            "daily".to_string(),
            "log".to_string(),
            "",
            PostAction::Publish,
        )
        .unwrap();
    let p2 = new_post(&mut store, 1, "second", "b", "");
    let posts = store.list(PostKind::Post, 0, 10);
    assert_eq!(posts.len(), 2);
    assert_eq!(posts[0].id, p2);
    assert_eq!(posts[1].id, p1);
    let nippos = store.list(PostKind::Nippo, 0, 10);
    assert_eq!(nippos.len(), 1);
    assert_eq!(nippos[0].id, n1);
    assert_eq!(store.count(PostKind::Post), 2);
    assert_eq!(store.count(PostKind::Nippo), 1);
    assert_eq!(store.count_all(), 3);
}

#[test]
fn drafts_are_listed_per_owner() {
    let mut store = Store::new();
    let d1 = store
        .create(
            PostKind::Post,
            1,
            "draft".to_string(),
            "b".to_string(),
            "",
            PostAction::Save,
        )
        .unwrap();
    new_post(&mut store, 1, "published", "b", "");
    store
        .create(
            PostKind::Post,
            2,
            "other draft".to_string(),
            "b".to_string(),
            "",
            PostAction::Save,
        )
        .unwrap();
    let drafts = store.list_drafts(1);
    assert_eq!(drafts.len(), 1);
    assert_eq!(drafts[0].id, d1);
    assert_eq!(drafts[0].status, PostStatus::Draft);
}

#[test]
fn comments_are_listed_in_creation_order() {
    let mut store = Store::new();
    let pid = new_post(&mut store, 1, "T", "B", "");
    store.add_comment(2, pid, "first".to_string()).unwrap();
    store.add_comment(3, pid, "second".to_string()).unwrap();
    let cs = store.list_by_post(pid);
    assert_eq!(cs.len(), 2);
    assert_eq!(cs[0].body, "first");
    assert_eq!(cs[0].user_id, 2);
    assert_eq!(cs[1].body, "second");
    assert!(cs[0].created_at < cs[1].created_at);
}

#[test]
fn comment_errors() {
    let mut store = Store::new();
    let pid = new_post(&mut store, 1, "T", "B", "");
    assert_eq!(
        store.add_comment(2, pid, "".to_string()),
        Err(RepoError::Validation)
    );
    assert_eq!(
        store.add_comment(2, 99, "hi".to_string()),
        Err(RepoError::NotFound)
    );
}

#[test]
fn stocked_listing_is_newest_bookmark_first() {
    let mut store = Store::new();
    let p1 = new_post(&mut store, 1, "one", "b", "");
    let p2 = new_post(&mut store, 1, "two", "b", "");
    let p3 = new_post(&mut store, 1, "three", "b", "");
    store.stock(7, p1).unwrap();
    store.stock(7, p3).unwrap();
    store.stock(8, p2).unwrap();
    assert_eq!(store.stocked_count(7), 2);
    let list = store.list_stocked(7, 0, 10);
    assert_eq!(list.len(), 2);
    assert_eq!(list[0].id, p3);
    assert_eq!(list[1].id, p1);
    assert_eq!(store.list_stocked(7, 1, 10).len(), 1);
    assert_eq!(store.list_stocked(7, 5, 10).len(), 0);
}

#[test]
fn list_all_spans_both_kinds() {
    let mut store = Store::new();
    new_post(&mut store, 1, "post", "b", "");
    store
        .create(
            PostKind::Nippo,
            1,
            "daily".to_string(),
            "log".to_string(),
            "",
            PostAction::Publish,
        )
        .unwrap();
    assert_eq!(store.list_all(0, 10).len(), 2);
    assert_eq!(store.list_all(1, 10).len(), 1);
    assert_eq!(store.list_all(2, 10).len(), 0);
}

#[test]
fn tags_are_shared_between_posts() {
    let mut store = Store::new();
    new_post(&mut store, 1, "one", "b", "rust,web");
    new_post(&mut store, 1, "two", "b", "rust");
    // "rust" is reused, not duplicated
    assert_eq!(store.tags.len(), 2);
}
