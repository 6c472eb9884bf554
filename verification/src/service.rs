use vstd::prelude::*;

use crate::delta::{diff_text, doc_lines, new_side, old_side, render_spec, DiffLine};
use crate::errors::RepoError;
use crate::notify::{build_notification, permalink_of, should_notify, Notification};
use crate::pagination::{clamp_page, page_offset, spec_clamp_page, total_pages};
use crate::store::{
    lemma_posts_desc_len, tag_names_of,
    comment_ok, create_ok, delete_ok, has_post_id, posts_desc, stock_ok, store_unchanged,
    unstock_ok, update_ok, wf, window, PostAction, PostKind, PostRecord, Store,
};
use vstd::pervasive::unreached;
use vstd::string::StringExecFns;

verus! {

/// Resolves the acting identity from the session-provided user id:
/// 0 (or an absent session) means anonymous.
pub fn current_identity(session_user_id: u64) -> (r: Option<u64>)
    ensures
        r == if session_user_id == 0 {
            Option::<u64>::None
        } else {
            Option::Some(session_user_id)
        },
{
    if session_user_id == 0 {
        None
    } else {
        Some(session_user_id)
    }
}

/// The ownership gate: anonymous callers are `Unauthorized`, callers
/// other than the resource owner are `Forbidden`.
pub fn authorize_owner(actor_id: u64, owner_id: u64) -> (r: Result<(), RepoError>)
    ensures
        actor_id == 0 ==> r == Err::<(), RepoError>(RepoError::Unauthorized),
        actor_id != 0 && actor_id != owner_id ==> r == Err::<(), RepoError>(RepoError::Forbidden),
        actor_id != 0 && actor_id == owner_id ==> r is Ok,
{
    if actor_id == 0 {
        Err(RepoError::Unauthorized)
    } else if actor_id != owner_id {
        Err(RepoError::Forbidden)
    } else {
        Ok(())
    }
}

/// Post `id` exists and is owned by `owner`.
pub open spec fn post_owner_is(posts: Seq<PostRecord>, id: u64, owner: u64) -> bool {
    exists|i: int|
        0 <= i < posts.len() && (#[trigger] posts[i]).id == id && posts[i].user_id == owner
}

/// Creates a post on behalf of `actor_id`; on an explicit publish the
/// returned notification carries the new body as its detail.
pub fn create_post(
    store: &mut Store,
    actor_id: u64,
    kind: PostKind,
    title: String,
    body: String,
    tag_string: &str,
    action: PostAction,
    domain: &str,
) -> (r: Result<(u64, Option<Notification>), RepoError>)
    requires
        wf(*old(store)),
        old(store).next_post_id < u64::MAX,
        old(store).clock < u64::MAX,
        old(store).next_tag_id as int + tag_string@.len() + 1 <= u64::MAX as int,
    ensures
        match r {
            Ok((pid, n)) => actor_id != 0 && create_ok(
                *old(store),
                *final(store),
                pid,
                kind,
                actor_id,
                title@,
                body@,
                tag_string@,
                action,
            ) && (n is Some <==> action == PostAction::Publish) && (match n {
                Option::Some(note) => note.actor_id == actor_id && note.title@ == "New post"@
                    && note.detail@ == body@ && note.post_id == pid && note.link@ == permalink_of(
                    domain@,
                    kind,
                    pid,
                ),
                Option::None => true,
            }),
            Err(e) => store_unchanged(*old(store), *final(store)) && ((e == RepoError::Unauthorized
                && actor_id == 0) || (e == RepoError::Validation && actor_id != 0 && (title@.len()
                == 0 || body@.len() == 0))),
        },
{
    if actor_id == 0 {
        return Err(RepoError::Unauthorized);
    }
    let body_copy = body.clone();
    match store.create(kind, actor_id, title, body, tag_string, action) {
        Err(e) => Err(e),
        Ok(pid) => {
            let n = if should_notify(action) {
                Some(
                    build_notification(
                        domain,
                        kind,
                        actor_id,
                        String::from_str("New post"),
                        body_copy,
                        pid,
                    ),
                )
            } else {
                None
            };
            Ok((pid, n))
        },
    }
}

/// What the edit notification promises: the detail is a rendered line
/// diff between the stored body and the new body, and the link is the
/// post's permalink.
pub open spec fn edit_note_ok(
    pre: Store,
    id: u64,
    new_body: Seq<char>,
    actor_id: u64,
    domain: Seq<char>,
    note: Notification,
) -> bool {
    &&& note.actor_id == actor_id
    &&& note.post_id == id
    &&& note.title@ == "Edit post"@
    &&& exists|i: int|
        0 <= i < pre.posts@.len() && (#[trigger] pre.posts@[i]).id == id && note.link@
            == permalink_of(domain, pre.posts@[i].kind, id) && (exists|d: Seq<DiffLine>|
            old_side(d) == doc_lines(pre.posts@[i].body@) && new_side(d) == doc_lines(new_body)
                && note.detail@ == render_spec(d))
}

/// Updates a post on behalf of `actor_id`: only the owner may write,
/// and an explicit publish triggers a notification whose detail is
/// the rendered diff between the old and new body.
pub fn update_post(
    store: &mut Store,
    actor_id: u64,
    id: u64,
    title: String,
    body: String,
    tag_string: &str,
    action: PostAction,
    domain: &str,
) -> (r: Result<Option<Notification>, RepoError>)
    requires
        wf(*old(store)),
        old(store).clock < u64::MAX,
        old(store).next_tag_id as int + tag_string@.len() + 1 <= u64::MAX as int,
    ensures
        match r {
            Ok(n) => actor_id != 0 && post_owner_is(old(store).posts@, id, actor_id) && update_ok(
                *old(store),
                *final(store),
                id,
                title@,
                body@,
                tag_string@,
                action,
            ) && (n is Some <==> action == PostAction::Publish) && (match n {
                Option::Some(note) => edit_note_ok(
                    *old(store),
                    id,
                    body@,
                    actor_id,
                    domain@,
                    note,
                ),
                Option::None => true,
            }),
            Err(e) => store_unchanged(*old(store), *final(store)) && ((e == RepoError::Unauthorized
                && actor_id == 0) || (e == RepoError::NotFound && actor_id != 0 && !has_post_id(
                old(store).posts@,
                id,
            )) || (e == RepoError::Forbidden && actor_id != 0 && has_post_id(old(store).posts@, id)
                && !post_owner_is(old(store).posts@, id, actor_id))),
        },
{
    if actor_id == 0 {
        return Err(RepoError::Unauthorized);
    }
    let ghost pre = *old(store);
    let old_post = match store.get(id) {
        Err(_) => {
            return Err(RepoError::NotFound);
        },
        Ok(p) => p,
    };
    let ghost wi = choose|i: int|
        0 <= i < pre.posts@.len() && (#[trigger] pre.posts@[i]).id == id && old_post.id == id
            && old_post.kind == pre.posts@[i].kind && old_post.user_id == pre.posts@[i].user_id
            && old_post.title == pre.posts@[i].title && old_post.body == pre.posts@[i].body
            && old_post.status == pre.posts@[i].status && old_post.created_at
            == pre.posts@[i].created_at && old_post.updated_at == pre.posts@[i].updated_at
            && old_post.tags.deep_view() == tag_names_of(pre, id);
    if old_post.user_id != actor_id {
        proof {
            assert forall|j: int|
                0 <= j < pre.posts@.len() && (#[trigger] pre.posts@[j]).id == id implies pre.posts@[j].user_id
                != actor_id by {
                if j != wi {
                    assert(pre.posts@[j].id != pre.posts@[wi].id);
                }
            }
        }
        return Err(RepoError::Forbidden);
    }
    let body_copy = body.clone();
    let publish = should_notify(action);
    match store.update(id, title, body, tag_string, action) {
        Err(_) => {
            proof {
                assert(false);
            }
            unreached()
        },
        Ok(()) => {
            let n = if publish {
                let d = diff_text(old_post.body.as_str(), body_copy.as_str());
                let note = build_notification(
                    domain,
                    old_post.kind,
                    actor_id,
                    String::from_str("Edit post"),
                    d,
                    id,
                );
                proof {
                    let dd = choose|dd: Seq<DiffLine>|
                        old_side(dd) == doc_lines(old_post.body@) && new_side(dd) == doc_lines(
                            body_copy@,
                        ) && note.detail@ == render_spec(dd);
                    assert(pre.posts@[wi].id == id && note.link@ == permalink_of(
                        domain@,
                        pre.posts@[wi].kind,
                        id,
                    ) && (old_side(dd) == doc_lines(pre.posts@[wi].body@) && new_side(dd)
                        == doc_lines(body@) && note.detail@ == render_spec(dd)));
                    assert(edit_note_ok(pre, id, body@, actor_id, domain@, note));
                }
                Some(note)
            } else {
                None
            };
            Ok(n)
        },
    }
}

/// Deletes a post on behalf of `actor_id`: only the owner may delete.
pub fn delete_post(store: &mut Store, actor_id: u64, id: u64) -> (r: Result<(), RepoError>)
    requires
        wf(*old(store)),
    ensures
        match r {
            Ok(()) => actor_id != 0 && post_owner_is(old(store).posts@, id, actor_id) && delete_ok(
                *old(store),
                *final(store),
                id,
            ),
            Err(e) => store_unchanged(*old(store), *final(store)) && ((e == RepoError::Unauthorized
                && actor_id == 0) || (e == RepoError::NotFound && actor_id != 0 && !has_post_id(
                old(store).posts@,
                id,
            )) || (e == RepoError::Forbidden && actor_id != 0 && has_post_id(old(store).posts@, id)
                && !post_owner_is(old(store).posts@, id, actor_id))),
        },
{
    if actor_id == 0 {
        return Err(RepoError::Unauthorized);
    }
    let ghost pre = *old(store);
    let old_post = match store.get(id) {
        Err(_) => {
            return Err(RepoError::NotFound);
        },
        Ok(p) => p,
    };
    let ghost wi = choose|i: int|
        0 <= i < pre.posts@.len() && (#[trigger] pre.posts@[i]).id == id && old_post.id == id
            && old_post.kind == pre.posts@[i].kind && old_post.user_id == pre.posts@[i].user_id
            && old_post.title == pre.posts@[i].title && old_post.body == pre.posts@[i].body
            && old_post.status == pre.posts@[i].status && old_post.created_at
            == pre.posts@[i].created_at && old_post.updated_at == pre.posts@[i].updated_at
            && old_post.tags.deep_view() == tag_names_of(pre, id);
    if old_post.user_id != actor_id {
        proof {
            assert forall|j: int|
                0 <= j < pre.posts@.len() && (#[trigger] pre.posts@[j]).id == id implies pre.posts@[j].user_id
                != actor_id by {
                if j != wi {
                    assert(pre.posts@[j].id != pre.posts@[wi].id);
                }
            }
        }
        return Err(RepoError::Forbidden);
    }
    match store.delete(id) {
        Err(_) => {
            proof {
                assert(false);
            }
            unreached()
        },
        Ok(()) => Ok(()),
    }
}

/// Adds a comment to a post on behalf of `actor_id`; a new comment
/// always notifies, with the comment body as the detail.
pub fn comment_on_post(
    store: &mut Store,
    actor_id: u64,
    post_id: u64,
    body: String,
    domain: &str,
) -> (r: Result<(u64, Notification), RepoError>)
    requires
        wf(*old(store)),
        old(store).next_comment_id < u64::MAX,
        old(store).clock < u64::MAX,
    ensures
        match r {
            Ok((cid, note)) => actor_id != 0 && comment_ok(
                *old(store),
                *final(store),
                cid,
                actor_id,
                post_id,
                body@,
            ) && note.actor_id == actor_id && note.title@ == "New comment"@ && note.detail@
                == body@ && note.post_id == post_id && note.link@ == permalink_of(
                domain@,
                PostKind::Post,
                post_id,
            ),
            Err(e) => store_unchanged(*old(store), *final(store)) && ((e == RepoError::Unauthorized
                && actor_id == 0) || (e == RepoError::Validation && actor_id != 0 && body@.len()
                == 0) || (e == RepoError::NotFound && actor_id != 0 && body@.len() > 0
                && !has_post_id(old(store).posts@, post_id))),
        },
{
    if actor_id == 0 {
        return Err(RepoError::Unauthorized);
    }
    let body_copy = body.clone();
    match store.add_comment(actor_id, post_id, body) {
        Err(e) => Err(e),
        Ok(cid) => {
            let note = build_notification(
                domain,
                PostKind::Post,
                actor_id,
                String::from_str("New comment"),
                body_copy,
                post_id,
            );
            Ok((cid, note))
        },
    }
}

/// Bookmarks a post for the acting user; idempotent for a repeated
/// bookmark of the same post.
pub fn stock_post(store: &mut Store, actor_id: u64, post_id: u64) -> (r: Result<(), RepoError>)
    requires
        wf(*old(store)),
        old(store).clock < u64::MAX,
    ensures
        match r {
            Ok(()) => actor_id != 0 && has_post_id(old(store).posts@, post_id) && stock_ok(
                *old(store),
                *final(store),
                actor_id,
                post_id,
            ),
            Err(e) => store_unchanged(*old(store), *final(store)) && ((e == RepoError::Unauthorized
                && actor_id == 0) || (e == RepoError::NotFound && actor_id != 0 && !has_post_id(
                old(store).posts@,
                post_id,
            ))),
        },
{
    if actor_id == 0 {
        return Err(RepoError::Unauthorized);
    }
    store.stock(actor_id, post_id)
}

/// Removes the acting user's bookmark of a post; removing an absent
/// bookmark succeeds with no state change.
pub fn unstock_post(store: &mut Store, actor_id: u64, post_id: u64) -> (r: Result<(), RepoError>)
    requires
        wf(*old(store)),
    ensures
        match r {
            Ok(()) => actor_id != 0 && unstock_ok(*old(store), *final(store), actor_id, post_id),
            Err(e) => store_unchanged(*old(store), *final(store)) && e == RepoError::Unauthorized
                && actor_id == 0,
        },
{
    if actor_id == 0 {
        return Err(RepoError::Unauthorized);
    }
    store.unstock(actor_id, post_id)
}

/// One page of a post listing, with the pagination numbers the views
/// show: a 1-based clamped current page, `count / page_size + 1` total
/// pages, and the neighbouring page numbers.
pub struct PostPage {
    pub posts: Vec<PostRecord>,
    pub current_page: u64,
    pub total_page: u64,
    pub next_page: u64,
    pub prev_page: u64,
}

/// Assembles one page of the listing of posts of `kind`, newest
/// first: `offset = (page - 1) * page_size` after clamping the page
/// to be 1-based.
pub fn post_list_page(store: &Store, kind: PostKind, page: i64, page_size: u64) -> (r: PostPage)
    requires
        page_size > 0,
        (spec_clamp_page(page) - 1) as int * page_size as int <= u64::MAX as int,
        spec_clamp_page(page) < u64::MAX,
        store.posts@.len() < u64::MAX,
    ensures
        r.current_page == spec_clamp_page(page),
        r.total_page == posts_desc(store.posts@, Option::Some(kind)).len() as u64 / page_size + 1,
        r.next_page == r.current_page + 1,
        r.prev_page == r.current_page - 1,
        r.posts@ == window(
            posts_desc(store.posts@, Option::Some(kind)),
            ((spec_clamp_page(page) - 1) * page_size) as u64,
            page_size,
        ),
{
    let current = clamp_page(page);
    let offset = page_offset(page, page_size);
    let posts = store.list(kind, offset, page_size);
    let count = store.count(kind);
    proof {
        lemma_posts_desc_len(store.posts@, Option::Some(kind));
        assert(count as int / page_size as int <= count as int) by (nonlinear_arith)
            requires
                page_size >= 1,
                count >= 0,
        ;
    }
    let total = total_pages(count, page_size);
    PostPage {
        posts,
        current_page: current,
        total_page: total,
        next_page: current + 1,
        prev_page: current - 1,
    }
}

} // verus!
