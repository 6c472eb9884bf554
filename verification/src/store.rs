use vstd::prelude::*;

use crate::errors::RepoError;
use crate::tags::{lemma_norm_tags_distinct, lemma_norm_tags_len, parse_tags, spec_parse_tags};
use crate::text::{lemma_split_on_len, split_on};
use vstd::pervasive::unreached;

verus! {

/// The two kinds of content: long-form posts and daily-log entries.
#[derive(Clone, Copy, Debug, PartialEq, Eq, Structural)]
pub enum PostKind {
    Post,
    Nippo,
}

/// Lifecycle state of a post.
#[derive(Clone, Copy, Debug, PartialEq, Eq, Structural)]
pub enum PostStatus {
    Draft,
    Published,
}

/// What a write was submitted as: an explicit publish, or a silent
/// draft save.
#[derive(Clone, Copy, Debug, PartialEq, Eq, Structural)]
pub enum PostAction {
    Publish,
    Save,
}

/// The status a write leaves the post in.
pub open spec fn status_of(action: PostAction) -> PostStatus {
    if action == PostAction::Publish {
        PostStatus::Published
    } else {
        PostStatus::Draft
    }
}

/// A row of the posts table.
pub struct PostRecord {
    pub id: u64,
    pub kind: PostKind,
    pub user_id: u64,
    pub title: String,
    pub body: String,
    pub status: PostStatus,
    pub created_at: u64,
    pub updated_at: u64,
}

/// A row of the tags table; names are unique.
pub struct TagRecord {
    pub id: u64,
    pub name: String,
}

/// A post-tag association row; pairs are unique.
pub struct PostTag {
    pub post_id: u64,
    pub tag_id: u64,
}

/// A row of the comments table; append-only.
pub struct CommentRecord {
    pub id: u64,
    pub post_id: u64,
    pub user_id: u64,
    pub body: String,
    pub created_at: u64,
}

/// A bookmark ("stock") row; (user_id, post_id) pairs are unique.
pub struct StockRecord {
    pub user_id: u64,
    pub post_id: u64,
    pub created_at: u64,
}

/// A post as handed to callers: the stored fields plus the resolved
/// tag names, in association order.
pub struct Post {
    pub id: u64,
    pub kind: PostKind,
    pub user_id: u64,
    pub title: String,
    pub body: String,
    pub status: PostStatus,
    pub created_at: u64,
    pub updated_at: u64,
    pub tags: Vec<String>,
}

/// The relational store of the tool, modelled in memory: one field per
/// table, fresh-id counters, and a logical clock that stamps rows so
/// that creation order is total.
pub struct Store {
    pub posts: Vec<PostRecord>,
    pub tags: Vec<TagRecord>,
    pub post_tags: Vec<PostTag>,
    pub comments: Vec<CommentRecord>,
    pub stocks: Vec<StockRecord>,
    pub next_post_id: u64,
    pub next_tag_id: u64,
    pub next_comment_id: u64,
    pub clock: u64,
}

pub open spec fn has_post_id(posts: Seq<PostRecord>, id: u64) -> bool {
    exists|i: int| 0 <= i < posts.len() && posts[i].id == id
}

pub open spec fn has_tag_id(tags: Seq<TagRecord>, tid: u64) -> bool {
    exists|i: int| 0 <= i < tags.len() && tags[i].id == tid
}

pub open spec fn has_stock(stocks: Seq<StockRecord>, user_id: u64, post_id: u64) -> bool {
    exists|i: int| 0 <= i < stocks.len() && stocks[i].user_id == user_id && stocks[i].post_id == post_id
}

/// Ids of the tags associated with `pid`, in association order.
pub open spec fn assoc_tag_ids(pts: Seq<PostTag>, pid: u64) -> Seq<u64>
    decreases pts.len(),
{
    if pts.len() == 0 {
        Seq::<u64>::empty()
    } else {
        let rest = assoc_tag_ids(pts.drop_last(), pid);
        if pts.last().post_id == pid {
            rest.push(pts.last().tag_id)
        } else {
            rest
        }
    }
}

/// The name of tag `tid` (empty if no such tag; unique under `wf`).
pub open spec fn tag_name(tags: Seq<TagRecord>, tid: u64) -> Seq<char>
    decreases tags.len(),
{
    if tags.len() == 0 {
        Seq::<char>::empty()
    } else if tags.last().id == tid {
        tags.last().name@
    } else {
        tag_name(tags.drop_last(), tid)
    }
}

/// The tag names associated with post `pid`, in association order.
pub open spec fn tag_names_of(s: Store, pid: u64) -> Seq<Seq<char>> {
    assoc_tag_ids(s.post_tags@, pid).map_values(|tid: u64| tag_name(s.tags@, tid))
}

pub open spec fn wf_posts(s: Store) -> bool {
    &&& forall|i: int, j: int|
        0 <= i < j < s.posts@.len() ==> #[trigger] s.posts@[i].id < #[trigger] s.posts@[j].id
    &&& forall|i: int| 0 <= i < s.posts@.len() ==> (#[trigger] s.posts@[i]).id < s.next_post_id
    &&& forall|i: int, j: int|
        0 <= i < j < s.posts@.len() ==> #[trigger] s.posts@[i].created_at < #[trigger] s.posts@[j].created_at
    &&& forall|i: int|
        0 <= i < s.posts@.len() ==> (#[trigger] s.posts@[i]).created_at < s.clock && s.posts@[i].updated_at
            < s.clock
}

pub open spec fn wf_tags(s: Store) -> bool {
    &&& forall|i: int, j: int|
        0 <= i < j < s.tags@.len() ==> #[trigger] s.tags@[i].id < #[trigger] s.tags@[j].id
    &&& forall|i: int| 0 <= i < s.tags@.len() ==> (#[trigger] s.tags@[i]).id < s.next_tag_id
    &&& forall|i: int, j: int|
        0 <= i < s.tags@.len() && 0 <= j < s.tags@.len() && i != j ==> #[trigger] s.tags@[i].name@
            != #[trigger] s.tags@[j].name@
}

pub open spec fn assoc_pairs_unique(pts: Seq<PostTag>) -> bool {
    forall|i: int, j: int|
        0 <= i < j < pts.len() ==> !(#[trigger] pts[i].post_id == #[trigger] pts[j].post_id
            && pts[i].tag_id == pts[j].tag_id)
}

pub open spec fn wf_assocs(s: Store) -> bool {
    &&& assoc_pairs_unique(s.post_tags@)
    &&& forall|k: int|
        0 <= k < s.post_tags@.len() ==> has_post_id(s.posts@, (#[trigger] s.post_tags@[k]).post_id)
            && has_tag_id(s.tags@, s.post_tags@[k].tag_id)
}

pub open spec fn wf_comments(s: Store) -> bool {
    &&& forall|i: int, j: int|
        0 <= i < j < s.comments@.len() ==> #[trigger] s.comments@[i].id < #[trigger] s.comments@[j].id
    &&& forall|i: int| 0 <= i < s.comments@.len() ==> (#[trigger] s.comments@[i]).id < s.next_comment_id
    &&& forall|i: int, j: int|
        0 <= i < j < s.comments@.len() ==> #[trigger] s.comments@[i].created_at
            < #[trigger] s.comments@[j].created_at
    &&& forall|i: int| 0 <= i < s.comments@.len() ==> (#[trigger] s.comments@[i]).created_at < s.clock
    &&& forall|k: int|
        0 <= k < s.comments@.len() ==> has_post_id(s.posts@, (#[trigger] s.comments@[k]).post_id)
}

pub open spec fn stock_pairs_unique(stocks: Seq<StockRecord>) -> bool {
    forall|i: int, j: int|
        0 <= i < j < stocks.len() ==> !(#[trigger] stocks[i].user_id == #[trigger] stocks[j].user_id
            && stocks[i].post_id == stocks[j].post_id)
}

pub open spec fn wf_stocks(s: Store) -> bool {
    &&& stock_pairs_unique(s.stocks@)
    &&& forall|k: int|
        0 <= k < s.stocks@.len() ==> has_post_id(s.posts@, (#[trigger] s.stocks@[k]).post_id)
    &&& forall|k: int| 0 <= k < s.stocks@.len() ==> (#[trigger] s.stocks@[k]).created_at < s.clock
}

/// Well-formedness of the store: every constructor establishes it and
/// every operation preserves it.
pub open spec fn wf(s: Store) -> bool {
    &&& wf_posts(s)
    &&& wf_tags(s)
    &&& wf_assocs(s)
    &&& wf_comments(s)
    &&& wf_stocks(s)
}

/// The two stores hold the same rows and counters.
pub open spec fn store_unchanged(a: Store, b: Store) -> bool {
    &&& b.posts@ == a.posts@
    &&& b.tags@ == a.tags@
    &&& b.post_tags@ == a.post_tags@
    &&& b.comments@ == a.comments@
    &&& b.stocks@ == a.stocks@
    &&& b.next_post_id == a.next_post_id
    &&& b.next_tag_id == a.next_tag_id
    &&& b.next_comment_id == a.next_comment_id
    &&& b.clock == a.clock
}

impl Store {
    /// An empty store.
    pub fn new() -> (s: Store)
        ensures
            wf(s),
            s.posts@.len() == 0,
            s.tags@.len() == 0,
            s.post_tags@.len() == 0,
            s.comments@.len() == 0,
            s.stocks@.len() == 0,
            s.next_post_id == 1,
            s.next_tag_id == 1,
            s.next_comment_id == 1,
    {
        Store {
            posts: Vec::new(),
            tags: Vec::new(),
            post_tags: Vec::new(),
            comments: Vec::new(),
            stocks: Vec::new(),
            next_post_id: 1,
            next_tag_id: 1,
            next_comment_id: 1,
            clock: 1,
        }
    }

    fn find_post(&self, id: u64) -> (r: Option<usize>)
        ensures
            match r {
                Some(i) => i < self.posts@.len() && self.posts@[i as int].id == id,
                None => !has_post_id(self.posts@, id),
            },
    {
        let mut i: usize = 0;
        while i < self.posts.len()
            invariant
                i <= self.posts@.len(),
                forall|k: int| 0 <= k < i ==> (#[trigger] self.posts@[k]).id != id,
            decreases self.posts@.len() - i,
        {
            if self.posts[i].id == id {
                return Some(i);
            }
            i += 1;
        }
        None
    }
}

/// With strictly increasing ids, a tag found at `i` is the tag `tag_name`
/// speaks of.
proof fn lemma_tag_name_at(tags: Seq<TagRecord>, tid: u64, i: int)
    requires
        forall|a: int, b: int| 0 <= a < b < tags.len() ==> #[trigger] tags[a].id < #[trigger] tags[b].id,
        0 <= i < tags.len(),
        tags[i].id == tid,
    ensures
        tag_name(tags, tid) == tags[i].name@,
    decreases tags.len(),
{
    if i == tags.len() - 1 {
    } else {
        assert(tags[i].id < tags[tags.len() - 1].id);
        assert(tags.drop_last()[i] == tags[i]);
        lemma_tag_name_at(tags.drop_last(), tid, i);
    }
}

/// Looks a tag up by name.
fn find_tag_by_name(tags: &Vec<TagRecord>, name: &String) -> (r: Option<u64>)
    ensures
        match r {
            Some(tid) => exists|i: int|
                0 <= i < tags@.len() && (#[trigger] tags@[i]).id == tid && tags@[i].name@ == name@,
            None => forall|i: int| 0 <= i < tags@.len() ==> (#[trigger] tags@[i]).name@ != name@,
        },
{
    let mut i: usize = 0;
    while i < tags.len()
        invariant
            i <= tags@.len(),
            forall|k: int| 0 <= k < i ==> (#[trigger] tags@[k]).name@ != name@,
        decreases tags@.len() - i,
    {
        if tags[i].name.eq(name) {
            return Some(tags[i].id);
        }
        i += 1;
    }
    None
}

/// Looks a tag's name up by id.
fn find_tag_name(tags: &Vec<TagRecord>, tid: u64) -> (r: Option<String>)
    requires
        forall|a: int, b: int| 0 <= a < b < tags@.len() ==> #[trigger] tags@[a].id < #[trigger] tags@[b].id,
    ensures
        match r {
            Some(n) => has_tag_id(tags@, tid) && n@ == tag_name(tags@, tid),
            None => !has_tag_id(tags@, tid),
        },
{
    let mut i: usize = 0;
    while i < tags.len()
        invariant
            i <= tags@.len(),
            forall|a: int, b: int| 0 <= a < b < tags@.len() ==> #[trigger] tags@[a].id
                < #[trigger] tags@[b].id,
            forall|k: int| 0 <= k < i ==> (#[trigger] tags@[k]).id != tid,
        decreases tags@.len() - i,
    {
        if tags[i].id == tid {
            let n = tags[i].name.clone();
            proof {
                lemma_tag_name_at(tags@, tid, i as int);
            }
            return Some(n);
        }
        i += 1;
    }
    None
}

/// An associated tag id belongs to some association row of the post.
proof fn lemma_assoc_ids_elements(pts: Seq<PostTag>, pid: u64, k: int)
    requires
        0 <= k < assoc_tag_ids(pts, pid).len(),
    ensures
        exists|e: int|
            0 <= e < pts.len() && (#[trigger] pts[e]).post_id == pid && pts[e].tag_id
                == assoc_tag_ids(pts, pid)[k],
    decreases pts.len(),
{
    let front = pts.drop_last();
    if k < assoc_tag_ids(front, pid).len() {
        assert(assoc_tag_ids(pts, pid)[k] == assoc_tag_ids(front, pid)[k]);
        lemma_assoc_ids_elements(front, pid, k);
        let e = choose|e: int|
            0 <= e < front.len() && (#[trigger] front[e]).post_id == pid && front[e].tag_id
                == assoc_tag_ids(front, pid)[k];
        assert(pts[e] == front[e]);
        assert(0 <= e < pts.len() && pts[e].post_id == pid && pts[e].tag_id
            == assoc_tag_ids(pts, pid)[k]);
    } else {
        let e = pts.len() - 1;
        assert(pts[e].post_id == pid);
        assert(pts[e].tag_id == assoc_tag_ids(pts, pid)[k]);
    }
}

/// An association row of the post contributes its tag id.
proof fn lemma_assoc_ids_complete(pts: Seq<PostTag>, pid: u64, e: int)
    requires
        0 <= e < pts.len(),
        pts[e].post_id == pid,
    ensures
        assoc_tag_ids(pts, pid).contains(pts[e].tag_id),
    decreases pts.len(),
{
    if e == pts.len() - 1 {
        assert(assoc_tag_ids(pts, pid).last() == pts[e].tag_id);
    } else {
        assert(pts.drop_last()[e] == pts[e]);
        lemma_assoc_ids_complete(pts.drop_last(), pid, e);
        let front = assoc_tag_ids(pts.drop_last(), pid);
        let k = choose|k: int| 0 <= k < front.len() && front[k] == pts[e].tag_id;
        assert(assoc_tag_ids(pts, pid)[k] == pts[e].tag_id);
    }
}

impl Store {
    /// The tag names of post `pid`, in association order.
    fn names_for(&self, pid: u64) -> (r: Vec<String>)
        requires
            wf(*self),
        ensures
            r.deep_view() == tag_names_of(*self, pid),
    {
        let mut out: Vec<String> = Vec::new();
        let mut k: usize = 0;
        while k < self.post_tags.len()
            invariant
                wf(*self),
                k <= self.post_tags@.len(),
                out.deep_view() == assoc_tag_ids(self.post_tags@.take(k as int), pid).map_values(
                    |tid: u64| tag_name(self.tags@, tid),
                ),
            decreases self.post_tags@.len() - k,
        {
            proof {
                assert(self.post_tags@.take(k + 1).drop_last() =~= self.post_tags@.take(k as int));
                assert(self.post_tags@.take(k + 1).last() == self.post_tags@[k as int]);
            }
            if self.post_tags[k].post_id == pid {
                let tid = self.post_tags[k].tag_id;
                let ghost prev = out.deep_view();
                match find_tag_name(&self.tags, tid) {
                    Some(n) => {
                        out.push(n);
                    },
                    None => {
                        proof {
                            assert(has_tag_id(self.tags@, tid));
                        }
                        unreached()
                    },
                }
                proof {
                    assert(out.deep_view() =~= prev.push(tag_name(self.tags@, tid)));
                    assert(assoc_tag_ids(self.post_tags@.take(k + 1), pid).map_values(
                        |t: u64| tag_name(self.tags@, t),
                    ) =~= assoc_tag_ids(self.post_tags@.take(k as int), pid).map_values(
                        |t: u64| tag_name(self.tags@, t),
                    ).push(tag_name(self.tags@, tid)));
                }
            } else {
                proof {
                    assert(assoc_tag_ids(self.post_tags@.take(k + 1), pid) =~= assoc_tag_ids(
                        self.post_tags@.take(k as int),
                        pid,
                    ));
                }
            }
            k += 1;
        }
        proof {
            assert(self.post_tags@.take(self.post_tags@.len() as int) =~= self.post_tags@);
        }
        out
    }
}

/// A post with no association rows has no associated tag ids.
proof fn lemma_assoc_ids_empty(pts: Seq<PostTag>, pid: u64)
    requires
        forall|e: int| 0 <= e < pts.len() ==> (#[trigger] pts[e]).post_id != pid,
    ensures
        assoc_tag_ids(pts, pid) =~= Seq::<u64>::empty(),
    decreases pts.len(),
{
    if pts.len() > 0 {
        assert(forall|e: int|
            0 <= e < pts.drop_last().len() ==> (#[trigger] pts.drop_last()[e]).post_id != pid);
        lemma_assoc_ids_empty(pts.drop_last(), pid);
    }
}

impl Store {
    /// Resolves each name to a tag row, creating missing tags, and
    /// associates the resolved tags with post `pid`, in order.
    fn associate(&mut self, pid: u64, names: &Vec<String>)
        requires
            wf(*old(self)),
            has_post_id(old(self).posts@, pid),
            assoc_tag_ids(old(self).post_tags@, pid) == Seq::<u64>::empty(),
            forall|i: int, j: int| 0 <= i < j < names@.len() ==> names@[i]@ != names@[j]@,
            old(self).next_tag_id as int + names@.len() <= u64::MAX as int,
        ensures
            wf(*final(self)),
            final(self).posts@ == old(self).posts@,
            final(self).comments@ == old(self).comments@,
            final(self).stocks@ == old(self).stocks@,
            final(self).next_post_id == old(self).next_post_id,
            final(self).next_comment_id == old(self).next_comment_id,
            final(self).clock == old(self).clock,
            old(self).tags@.len() <= final(self).tags@.len(),
            final(self).tags@.take(old(self).tags@.len() as int) == old(self).tags@,
            tag_names_of(*final(self), pid) == names.deep_view(),
            forall|p: u64| p != pid ==> tag_names_of(*final(self), p) == tag_names_of(*old(self), p),
    {
        let ghost pre = *old(self);
        let mut k: usize = 0;
        proof {
            assert(names.deep_view().take(0) =~= Seq::<Seq<char>>::empty());
            assert(tag_names_of(*self, pid) =~= Seq::<Seq<char>>::empty());
        }
        while k < names.len()
            invariant
                wf(*self),
                wf(pre),
                k <= names@.len(),
                forall|i: int, j: int| 0 <= i < j < names@.len() ==> names@[i]@ != names@[j]@,
                has_post_id(self.posts@, pid),
                self.posts@ == pre.posts@,
                self.comments@ == pre.comments@,
                self.stocks@ == pre.stocks@,
                self.next_post_id == pre.next_post_id,
                self.next_comment_id == pre.next_comment_id,
                self.clock == pre.clock,
                pre.tags@.len() <= self.tags@.len(),
                self.tags@.take(pre.tags@.len() as int) == pre.tags@,
                self.next_tag_id >= pre.next_tag_id,
                self.next_tag_id as int + names@.len() - k <= u64::MAX as int,
                forall|tid: u64|
                    has_tag_id(pre.tags@, tid) ==> #[trigger] tag_name(self.tags@, tid) == tag_name(
                        pre.tags@,
                        tid,
                    ),
                tag_names_of(*self, pid) == names.deep_view().take(k as int),
                forall|p: u64|
                    p != pid ==> #[trigger] assoc_tag_ids(self.post_tags@, p) == assoc_tag_ids(
                        pre.post_tags@,
                        p,
                    ),
            decreases names@.len() - k,
        {
            let name = &names[k];
            let ghost tags_before = self.tags@;
            let ghost pts_before = self.post_tags@;
            let ghost assoc_before = assoc_tag_ids(self.post_tags@, pid);
            let tid: u64;
            match find_tag_by_name(&self.tags, name) {
                Some(t) => {
                    tid = t;
                    proof {
                        let i = choose|i: int|
                            0 <= i < self.tags@.len() && (#[trigger] self.tags@[i]).id == t
                                && self.tags@[i].name@ == name@;
                        lemma_tag_name_at(self.tags@, t, i);
                        assert(tag_name(self.tags@, tid) == name@);
                    }
                },
                None => {
                    let t = self.next_tag_id;
                    self.tags.push(TagRecord { id: t, name: name.clone() });
                    self.next_tag_id = t + 1;
                    tid = t;
                    proof {
                        assert(self.tags@.drop_last() =~= tags_before);
                        assert(tag_name(self.tags@, t) == name@);
                        // every id already in the table is smaller than t
                        assert(forall|i: int|
                            0 <= i < tags_before.len() ==> (#[trigger] tags_before[i]).id < t);
                        // lookups of existing ids are unchanged by the push
                        assert forall|tid2: u64| has_tag_id(tags_before, tid2) implies #[trigger] tag_name(
                            self.tags@,
                            tid2,
                        ) == tag_name(tags_before, tid2) by {
                            let i = choose|i: int|
                                0 <= i < tags_before.len() && (#[trigger] tags_before[i]).id == tid2;
                            assert(tags_before[i].id < t);
                        }
                        assert forall|tid2: u64| has_tag_id(pre.tags@, tid2) implies #[trigger] tag_name(
                            self.tags@,
                            tid2,
                        ) == tag_name(pre.tags@, tid2) by {
                            let i = choose|i: int|
                                0 <= i < pre.tags@.len() && (#[trigger] pre.tags@[i]).id == tid2;
                            assert(pre.tags@[i] == tags_before.take(pre.tags@.len() as int)[i]);
                            assert(has_tag_id(tags_before, tid2));
                        }
                        // existing association rows still reference present tags
                        assert forall|e: int| 0 <= e < self.post_tags@.len() implies has_tag_id(
                            self.tags@,
                            (#[trigger] self.post_tags@[e]).tag_id,
                        ) by {
                            let i = choose|i: int|
                                0 <= i < tags_before.len() && (#[trigger] tags_before[i]).id
                                    == self.post_tags@[e].tag_id;
                            assert(self.tags@[i] == tags_before[i]);
                        }
                        // the mapped names of the post's associations are unchanged
                        assert forall|k2: int| 0 <= k2 < assoc_before.len() implies #[trigger] tag_name(
                            self.tags@,
                            assoc_before[k2],
                        ) == tag_name(tags_before, assoc_before[k2]) by {
                            lemma_assoc_ids_elements(self.post_tags@, pid, k2);
                            let e = choose|e: int|
                                0 <= e < self.post_tags@.len()
                                    && (#[trigger] self.post_tags@[e]).post_id == pid
                                    && self.post_tags@[e].tag_id == assoc_before[k2];
                            let i = choose|i: int|
                                0 <= i < tags_before.len() && (#[trigger] tags_before[i]).id
                                    == assoc_before[k2];
                            assert(tags_before[i].id < t);
                        }
                        assert(assoc_before.map_values(|t2: u64| tag_name(self.tags@, t2))
                            =~= assoc_before.map_values(|t2: u64| tag_name(tags_before, t2)));
                        assert(self.tags@.take(pre.tags@.len() as int) =~= pre.tags@);
                    }
                },
            }
            proof {
                // the new pair (pid, tid) is not among the association rows
                assert(tag_name(self.tags@, tid) == name@);
                assert(assoc_tag_ids(self.post_tags@, pid).map_values(
                    |t2: u64| tag_name(self.tags@, t2),
                ) =~= names.deep_view().take(k as int));
                assert forall|e: int| 0 <= e < self.post_tags@.len() implies !((
                #[trigger] self.post_tags@[e]).post_id == pid && self.post_tags@[e].tag_id == tid) by {
                    if self.post_tags@[e].post_id == pid && self.post_tags@[e].tag_id == tid {
                        lemma_assoc_ids_complete(self.post_tags@, pid, e);
                        let k2 = choose|k2: int|
                            0 <= k2 < assoc_before.len() && assoc_before[k2] == tid;
                        assert(names.deep_view().take(k as int)[k2] == tag_name(
                            self.tags@,
                            tid,
                        ));
                        assert(names@[k2]@ == names@[k as int]@);
                        assert(false);
                    }
                }
            }
            let ghost pts_cur = self.post_tags@;
            self.post_tags.push(PostTag { post_id: pid, tag_id: tid });
            k += 1;
            proof {
                assert(self.post_tags@.drop_last() =~= pts_cur);
                assert(assoc_tag_ids(self.post_tags@, pid) =~= assoc_tag_ids(pts_cur, pid).push(
                    tid,
                ));
                assert(tag_names_of(*self, pid) =~= assoc_tag_ids(pts_cur, pid).map_values(
                    |t2: u64| tag_name(self.tags@, t2),
                ).push(tag_name(self.tags@, tid)));
                assert(names.deep_view().take(k as int) =~= names.deep_view().take(
                    k - 1,
                ).push(names@[k - 1]@));
                assert(tag_names_of(*self, pid) =~= names.deep_view().take(k as int));
                assert forall|p: u64| p != pid implies #[trigger] assoc_tag_ids(
                    self.post_tags@,
                    p,
                ) == assoc_tag_ids(pre.post_tags@, p) by {
                    assert(assoc_tag_ids(self.post_tags@, p) == assoc_tag_ids(pts_cur, p));
                }
                assert(has_tag_id(self.tags@, tid));
            }
        }
        proof {
            assert(names.deep_view().take(names@.len() as int) =~= names.deep_view());
            assert forall|p: u64| p != pid implies #[trigger] tag_names_of(*self, p)
                == tag_names_of(pre, p) by {
                let ids = assoc_tag_ids(pre.post_tags@, p);
                assert(assoc_tag_ids(self.post_tags@, p) == ids);
                assert forall|k2: int| 0 <= k2 < ids.len() implies #[trigger] tag_name(
                    self.tags@,
                    ids[k2],
                ) == tag_name(pre.tags@, ids[k2]) by {
                    lemma_assoc_ids_elements(pre.post_tags@, p, k2);
                    let e = choose|e: int|
                        0 <= e < pre.post_tags@.len() && (#[trigger] pre.post_tags@[e]).post_id == p
                            && pre.post_tags@[e].tag_id == ids[k2];
                    assert(has_tag_id(pre.tags@, ids[k2]));
                }
                assert(tag_names_of(*self, p) =~= tag_names_of(pre, p));
            }
        }
    }
}

/// What a successful `create` does to the store: one post row appended
/// with the given fields and a fresh id, its tag associations resolved
/// from the parsed tag string, and nothing else touched.
pub open spec fn create_ok(
    pre: Store,
    post: Store,
    pid: u64,
    kind: PostKind,
    owner_id: u64,
    title: Seq<char>,
    body: Seq<char>,
    tag_string: Seq<char>,
    action: PostAction,
) -> bool {
    &&& pid == pre.next_post_id
    &&& post.posts@.len() == pre.posts@.len() + 1
    &&& post.posts@.drop_last() == pre.posts@
    &&& post.posts@.last().id == pid
    &&& post.posts@.last().kind == kind
    &&& post.posts@.last().user_id == owner_id
    &&& post.posts@.last().title@ == title
    &&& post.posts@.last().body@ == body
    &&& post.posts@.last().status == status_of(action)
    &&& post.posts@.last().created_at == pre.clock
    &&& post.posts@.last().updated_at == pre.clock
    &&& tag_names_of(post, pid) == spec_parse_tags(tag_string)
    &&& forall|p: u64| p != pid ==> tag_names_of(post, p) == tag_names_of(pre, p)
    &&& pre.tags@.len() <= post.tags@.len()
    &&& post.tags@.take(pre.tags@.len() as int) == pre.tags@
    &&& post.comments@ == pre.comments@
    &&& post.stocks@ == pre.stocks@
    &&& post.next_post_id == pre.next_post_id + 1
    &&& post.next_comment_id == pre.next_comment_id
    &&& post.clock == pre.clock + 1
    &&& wf(post)
}

impl Store {
    /// Inserts a post: rejects an empty title or body with
    /// `Validation`, otherwise appends the row, resolves the parsed
    /// tag string and associates the tags, and returns the fresh id.
    pub fn create(
        &mut self,
        kind: PostKind,
        owner_id: u64,
        title: String,
        body: String,
        tag_string: &str,
        action: PostAction,
    ) -> (r: Result<u64, RepoError>)
        requires
            wf(*old(self)),
            old(self).next_post_id < u64::MAX,
            old(self).clock < u64::MAX,
            old(self).next_tag_id as int + tag_string@.len() + 1 <= u64::MAX as int,
        ensures
            match r {
                Ok(pid) => title@.len() > 0 && body@.len() > 0 && create_ok(
                    *old(self),
                    *final(self),
                    pid,
                    kind,
                    owner_id,
                    title@,
                    body@,
                    tag_string@,
                    action,
                ),
                Err(e) => e == RepoError::Validation && (title@.len() == 0 || body@.len() == 0)
                    && store_unchanged(*old(self), *final(self)),
            },
    {
        if title.as_str().is_empty() || body.as_str().is_empty() {
            return Err(RepoError::Validation);
        }
        let ghost pre = *old(self);
        let names = parse_tags(tag_string);
        proof {
            lemma_split_on_len(tag_string@, ',');
            lemma_norm_tags_len(split_on(tag_string@, ','));
            lemma_norm_tags_distinct(split_on(tag_string@, ','));
            assert(forall|i: int|
                0 <= i < names@.len() ==> #[trigger] names@[i]@ == names.deep_view()[i]);
        }
        let pid = self.next_post_id;
        let stamp = self.clock;
        self.clock = stamp + 1;
        let status = if let PostAction::Publish = action {
            PostStatus::Published
        } else {
            PostStatus::Draft
        };
        let rec = PostRecord {
            id: pid,
            kind,
            user_id: owner_id,
            title,
            body,
            status,
            created_at: stamp,
            updated_at: stamp,
        };
        let ghost posts_before = self.posts@;
        self.posts.push(rec);
        self.next_post_id = pid + 1;
        proof {
            assert(self.posts@.drop_last() =~= posts_before);
            // rows referencing old posts still find them
            assert forall|p: u64| has_post_id(posts_before, p) implies has_post_id(
                self.posts@,
                p,
            ) by {
                let i = choose|i: int|
                    0 <= i < posts_before.len() && (#[trigger] posts_before[i]).id == p;
                assert(self.posts@[i] == posts_before[i]);
            }
            // no association row names the fresh post id yet
            assert forall|e: int| 0 <= e < self.post_tags@.len() implies (
            #[trigger] self.post_tags@[e]).post_id != pid by {
                let i = choose|i: int|
                    0 <= i < posts_before.len() && (#[trigger] posts_before[i]).id
                        == self.post_tags@[e].post_id;
            }
            lemma_assoc_ids_empty(self.post_tags@, pid);
            assert(self.posts@[self.posts@.len() - 1].id == pid);
            assert(has_post_id(self.posts@, pid));
        }
        let ghost mid = *self;
        self.associate(pid, &names);
        proof {
            assert(tag_names_of(*self, pid) == names.deep_view());
            assert forall|p: u64| p != pid implies #[trigger] tag_names_of(*self, p)
                == tag_names_of(pre, p) by {
                assert(tag_names_of(*self, p) == tag_names_of(mid, p));
                assert(tag_names_of(mid, p) =~= tag_names_of(pre, p));
            }
        }
        Ok(pid)
    }
}

/// The association rows left after post `pid` is detached.
pub open spec fn assocs_removed(pts: Seq<PostTag>, pid: u64) -> Seq<PostTag>
    decreases pts.len(),
{
    if pts.len() == 0 {
        Seq::<PostTag>::empty()
    } else {
        let rest = assocs_removed(pts.drop_last(), pid);
        if pts.last().post_id == pid {
            rest
        } else {
            rest.push(pts.last())
        }
    }
}

/// The comment rows left after post `pid` is removed.
pub open spec fn comments_removed(cs: Seq<CommentRecord>, pid: u64) -> Seq<CommentRecord>
    decreases cs.len(),
{
    if cs.len() == 0 {
        Seq::<CommentRecord>::empty()
    } else {
        let rest = comments_removed(cs.drop_last(), pid);
        if cs.last().post_id == pid {
            rest
        } else {
            rest.push(cs.last())
        }
    }
}

/// The bookmark rows left after post `pid` is removed.
pub open spec fn stocks_removed_post(st: Seq<StockRecord>, pid: u64) -> Seq<StockRecord>
    decreases st.len(),
{
    if st.len() == 0 {
        Seq::<StockRecord>::empty()
    } else {
        let rest = stocks_removed_post(st.drop_last(), pid);
        if st.last().post_id == pid {
            rest
        } else {
            rest.push(st.last())
        }
    }
}

proof fn lemma_assocs_removed_elem(pts: Seq<PostTag>, pid: u64, k: int)
    requires
        0 <= k < assocs_removed(pts, pid).len(),
    ensures
        exists|e: int| 0 <= e < pts.len() && assocs_removed(pts, pid)[k] == #[trigger] pts[e],
        assocs_removed(pts, pid)[k].post_id != pid,
    decreases pts.len(),
{
    let front = pts.drop_last();
    let f = assocs_removed(front, pid);
    if k < f.len() {
        lemma_assocs_removed_elem(front, pid, k);
        let e = choose|e: int| 0 <= e < front.len() && f[k] == #[trigger] front[e];
        assert(pts[e] == front[e]);
        assert(assocs_removed(pts, pid)[k] == f[k]);
    } else {
        assert(pts[pts.len() - 1] == pts.last());
        assert(assocs_removed(pts, pid)[k] == pts.last());
    }
}

proof fn lemma_assocs_removed_unique(pts: Seq<PostTag>, pid: u64)
    requires
        assoc_pairs_unique(pts),
    ensures
        assoc_pairs_unique(assocs_removed(pts, pid)),
    decreases pts.len(),
{
    if pts.len() > 0 {
        let front = pts.drop_last();
        assert(forall|i: int| 0 <= i < front.len() ==> front[i] == #[trigger] pts[i]);
        lemma_assocs_removed_unique(front, pid);
        let f = assocs_removed(front, pid);
        if pts.last().post_id != pid {
            assert forall|a: int, b: int| 0 <= a < b < assocs_removed(pts, pid).len() implies !((
            #[trigger] assocs_removed(pts, pid)[a]).post_id == (#[trigger] assocs_removed(
                pts,
                pid,
            )[b]).post_id && assocs_removed(pts, pid)[a].tag_id == assocs_removed(
                pts,
                pid,
            )[b].tag_id) by {
                if b < f.len() {
                } else {
                    lemma_assocs_removed_elem(front, pid, a);
                    let e = choose|e: int| 0 <= e < front.len() && f[a] == #[trigger] front[e];
                    assert(pts[e] == front[e]);
                    assert(!(pts[e].post_id == pts[pts.len() - 1].post_id && pts[e].tag_id
                        == pts[pts.len() - 1].tag_id));
                }
            }
        }
    }
}

proof fn lemma_assocs_removed_others(pts: Seq<PostTag>, pid: u64, p: u64)
    requires
        p != pid,
    ensures
        assoc_tag_ids(assocs_removed(pts, pid), p) == assoc_tag_ids(pts, p),
    decreases pts.len(),
{
    if pts.len() > 0 {
        let front = pts.drop_last();
        lemma_assocs_removed_others(front, pid, p);
        if pts.last().post_id == pid {
        } else {
            assert(assocs_removed(pts, pid).drop_last() =~= assocs_removed(front, pid));
        }
    }
}

proof fn lemma_comments_removed_elem(cs: Seq<CommentRecord>, pid: u64, k: int)
    requires
        0 <= k < comments_removed(cs, pid).len(),
    ensures
        exists|e: int| 0 <= e < cs.len() && comments_removed(cs, pid)[k] == #[trigger] cs[e],
        comments_removed(cs, pid)[k].post_id != pid,
    decreases cs.len(),
{
    let front = cs.drop_last();
    let f = comments_removed(front, pid);
    if k < f.len() {
        lemma_comments_removed_elem(front, pid, k);
        let e = choose|e: int| 0 <= e < front.len() && f[k] == #[trigger] front[e];
        assert(cs[e] == front[e]);
        assert(comments_removed(cs, pid)[k] == f[k]);
    } else {
        assert(cs[cs.len() - 1] == cs.last());
        assert(comments_removed(cs, pid)[k] == cs.last());
    }
}

proof fn lemma_comments_removed_pair(cs: Seq<CommentRecord>, pid: u64, i: int, j: int)
    requires
        forall|a: int, b: int| 0 <= a < b < cs.len() ==> #[trigger] cs[a].id < #[trigger] cs[b].id,
        forall|a: int, b: int|
            0 <= a < b < cs.len() ==> #[trigger] cs[a].created_at < #[trigger] cs[b].created_at,
        0 <= i < j < comments_removed(cs, pid).len(),
    ensures
        comments_removed(cs, pid)[i].id < comments_removed(cs, pid)[j].id,
        comments_removed(cs, pid)[i].created_at < comments_removed(cs, pid)[j].created_at,
    decreases cs.len(),
{
    let front = cs.drop_last();
    assert(forall|a: int| 0 <= a < front.len() ==> front[a] == #[trigger] cs[a]);
    let f = comments_removed(front, pid);
    if cs.last().post_id == pid || j < f.len() {
        lemma_comments_removed_pair(front, pid, i, j);
    } else {
        lemma_comments_removed_elem(front, pid, i);
        let e = choose|e: int| 0 <= e < front.len() && f[i] == #[trigger] front[e];
        assert(cs[e] == front[e]);
        assert(cs[e].id < cs[cs.len() - 1].id);
        assert(cs[e].created_at < cs[cs.len() - 1].created_at);
        assert(comments_removed(cs, pid)[j] == cs.last());
        assert(comments_removed(cs, pid)[i] == f[i]);
    }
}

proof fn lemma_stocks_removed_elem(st: Seq<StockRecord>, pid: u64, k: int)
    requires
        0 <= k < stocks_removed_post(st, pid).len(),
    ensures
        exists|e: int| 0 <= e < st.len() && stocks_removed_post(st, pid)[k] == #[trigger] st[e],
        stocks_removed_post(st, pid)[k].post_id != pid,
    decreases st.len(),
{
    let front = st.drop_last();
    let f = stocks_removed_post(front, pid);
    if k < f.len() {
        lemma_stocks_removed_elem(front, pid, k);
        let e = choose|e: int| 0 <= e < front.len() && f[k] == #[trigger] front[e];
        assert(st[e] == front[e]);
        assert(stocks_removed_post(st, pid)[k] == f[k]);
    } else {
        assert(st[st.len() - 1] == st.last());
        assert(stocks_removed_post(st, pid)[k] == st.last());
    }
}

proof fn lemma_stocks_removed_unique(st: Seq<StockRecord>, pid: u64)
    requires
        stock_pairs_unique(st),
    ensures
        stock_pairs_unique(stocks_removed_post(st, pid)),
    decreases st.len(),
{
    if st.len() > 0 {
        let front = st.drop_last();
        assert(forall|i: int| 0 <= i < front.len() ==> front[i] == #[trigger] st[i]);
        lemma_stocks_removed_unique(front, pid);
        let f = stocks_removed_post(front, pid);
        if st.last().post_id != pid {
            assert forall|a: int, b: int|
                0 <= a < b < stocks_removed_post(st, pid).len() implies !((
            #[trigger] stocks_removed_post(st, pid)[a]).user_id == (#[trigger] stocks_removed_post(
                st,
                pid,
            )[b]).user_id && stocks_removed_post(st, pid)[a].post_id == stocks_removed_post(
                st,
                pid,
            )[b].post_id) by {
                if b < f.len() {
                } else {
                    lemma_stocks_removed_elem(front, pid, a);
                    let e = choose|e: int| 0 <= e < front.len() && f[a] == #[trigger] front[e];
                    assert(st[e] == front[e]);
                    assert(!(st[e].user_id == st[st.len() - 1].user_id && st[e].post_id
                        == st[st.len() - 1].post_id));
                }
            }
        }
    }
}

impl Store {
    /// Detaches every tag association of post `pid`.
    fn remove_assocs(&mut self, pid: u64)
        requires
            wf(*old(self)),
        ensures
            wf(*final(self)),
            final(self).posts@ == old(self).posts@,
            final(self).tags@ == old(self).tags@,
            final(self).comments@ == old(self).comments@,
            final(self).stocks@ == old(self).stocks@,
            final(self).next_post_id == old(self).next_post_id,
            final(self).next_tag_id == old(self).next_tag_id,
            final(self).next_comment_id == old(self).next_comment_id,
            final(self).clock == old(self).clock,
            final(self).post_tags@ == assocs_removed(old(self).post_tags@, pid),
            assoc_tag_ids(final(self).post_tags@, pid) == Seq::<u64>::empty(),
            forall|p: u64|
                p != pid ==> #[trigger] assoc_tag_ids(final(self).post_tags@, p) == assoc_tag_ids(
                    old(self).post_tags@,
                    p,
                ),
    {
        let ghost pts0 = self.post_tags@;
        let mut out: Vec<PostTag> = Vec::new();
        let mut i: usize = 0;
        proof {
            assert(assocs_removed(pts0.take(0), pid) =~= Seq::<PostTag>::empty());
            assert(out@ =~= assocs_removed(pts0.take(0), pid));
        }
        while i < self.post_tags.len()
            invariant
                i <= pts0.len(),
                self.post_tags@ == pts0,
                out@ == assocs_removed(pts0.take(i as int), pid),
            decreases pts0.len() - i,
        {
            proof {
                assert(pts0.take(i + 1).drop_last() =~= pts0.take(i as int));
                assert(pts0.take(i + 1).last() == pts0[i as int]);
            }
            let row = PostTag {
                post_id: self.post_tags[i].post_id,
                tag_id: self.post_tags[i].tag_id,
            };
            if row.post_id != pid {
                out.push(row);
            }
            i += 1;
        }
        proof {
            assert(pts0.take(pts0.len() as int) =~= pts0);
        }
        self.post_tags = out;
        proof {
            let f = assocs_removed(pts0, pid);
            lemma_assocs_removed_unique(pts0, pid);
            assert forall|e: int| 0 <= e < f.len() implies (#[trigger] f[e]).post_id != pid
                && has_post_id(self.posts@, f[e].post_id) && has_tag_id(
                self.tags@,
                f[e].tag_id,
            ) by {
                lemma_assocs_removed_elem(pts0, pid, e);
                let e0 = choose|e0: int| 0 <= e0 < pts0.len() && f[e] == #[trigger] pts0[e0];
            }
            lemma_assoc_ids_empty(f, pid);
            assert forall|p: u64| p != pid implies #[trigger] assoc_tag_ids(f, p) == assoc_tag_ids(
                pts0,
                p,
            ) by {
                lemma_assocs_removed_others(pts0, pid, p);
            }
        }
    }
}

/// What a successful `update` does to the store: the post's title,
/// body and status replaced in place (creation time and owner kept,
/// update time stamped), its tag associations replaced by the parsed
/// tag set — associations no longer named are dropped, new ones added —
/// and nothing else touched.
pub open spec fn update_ok(
    pre: Store,
    post: Store,
    id: u64,
    title: Seq<char>,
    body: Seq<char>,
    tag_string: Seq<char>,
    action: PostAction,
) -> bool {
    &&& post.posts@.len() == pre.posts@.len()
    &&& forall|i: int|
        0 <= i < pre.posts@.len() && (#[trigger] pre.posts@[i]).id == id ==> post.posts@[i].id == id
            && post.posts@[i].kind == pre.posts@[i].kind && post.posts@[i].user_id
            == pre.posts@[i].user_id && post.posts@[i].title@ == title && post.posts@[i].body@
            == body && post.posts@[i].status == status_of(action) && post.posts@[i].created_at
            == pre.posts@[i].created_at && post.posts@[i].updated_at == pre.clock
    &&& forall|j: int|
        0 <= j < pre.posts@.len() && (#[trigger] pre.posts@[j]).id != id ==> post.posts@[j]
            == pre.posts@[j]
    &&& tag_names_of(post, id) == spec_parse_tags(tag_string)
    &&& forall|p: u64| p != id ==> tag_names_of(post, p) == tag_names_of(pre, p)
    &&& pre.tags@.len() <= post.tags@.len()
    &&& post.tags@.take(pre.tags@.len() as int) == pre.tags@
    &&& post.comments@ == pre.comments@
    &&& post.stocks@ == pre.stocks@
    &&& post.next_post_id == pre.next_post_id
    &&& post.next_comment_id == pre.next_comment_id
    &&& post.clock == pre.clock + 1
    &&& wf(post)
}

impl Store {
    /// Replaces a post's title, body and status and re-resolves its
    /// tag associations to exactly the parsed tag set, atomically.
    /// `NotFound` if the id is absent; ownership is checked by the
    /// invoking layer.
    pub fn update(
        &mut self,
        id: u64,
        title: String,
        body: String,
        tag_string: &str,
        action: PostAction,
    ) -> (r: Result<(), RepoError>)
        requires
            wf(*old(self)),
            old(self).clock < u64::MAX,
            old(self).next_tag_id as int + tag_string@.len() + 1 <= u64::MAX as int,
        ensures
            match r {
                Ok(()) => has_post_id(old(self).posts@, id) && update_ok(
                    *old(self),
                    *final(self),
                    id,
                    title@,
                    body@,
                    tag_string@,
                    action,
                ),
                Err(e) => e == RepoError::NotFound && !has_post_id(old(self).posts@, id)
                    && store_unchanged(*old(self), *final(self)),
            },
    {
        let ghost pre = *old(self);
        let idx = match self.find_post(id) {
            None => {
                return Err(RepoError::NotFound);
            },
            Some(i) => i,
        };
        let kind = self.posts[idx].kind;
        let user_id = self.posts[idx].user_id;
        let created = self.posts[idx].created_at;
        let stamp = self.clock;
        self.clock = stamp + 1;
        let status = if let PostAction::Publish = action {
            PostStatus::Published
        } else {
            PostStatus::Draft
        };
        let slot = &mut self.posts[idx];
        *slot = PostRecord {
            id,
            kind,
            user_id,
            title,
            body,
            status,
            created_at: created,
            updated_at: stamp,
        };
        proof {
            assert(self.posts@ =~= pre.posts@.update(idx as int, self.posts@[idx as int]));
            assert forall|p: u64| has_post_id(pre.posts@, p) implies has_post_id(
                self.posts@,
                p,
            ) by {
                let i = choose|i: int| 0 <= i < pre.posts@.len() && (#[trigger] pre.posts@[i]).id == p;
                assert(self.posts@[i].id == p);
            }
        }
        self.remove_assocs(id);
        let names = parse_tags(tag_string);
        proof {
            lemma_split_on_len(tag_string@, ',');
            lemma_norm_tags_len(split_on(tag_string@, ','));
            lemma_norm_tags_distinct(split_on(tag_string@, ','));
            assert(forall|i: int|
                0 <= i < names@.len() ==> #[trigger] names@[i]@ == names.deep_view()[i]);
            assert(self.posts@[idx as int].id == id);
            assert(has_post_id(self.posts@, id));
        }
        let ghost mid = *self;
        self.associate(id, &names);
        proof {
            assert forall|p: u64| p != id implies #[trigger] tag_names_of(*self, p)
                == tag_names_of(pre, p) by {
                assert(tag_names_of(*self, p) == tag_names_of(mid, p));
                assert(assoc_tag_ids(mid.post_tags@, p) == assoc_tag_ids(pre.post_tags@, p));
                assert(tag_names_of(mid, p) =~= tag_names_of(pre, p));
            }
        }
        Ok(())
    }
}

/// What a successful `delete` does to the store: the post row removed,
/// its tag associations detached, and its comments and bookmarks
/// removed with it (a cascading delete, so every remaining row still
/// references a present post); tags themselves are never deleted.
pub open spec fn delete_ok(pre: Store, post: Store, id: u64) -> bool {
    &&& exists|i: int|
        0 <= i < pre.posts@.len() && (#[trigger] pre.posts@[i]).id == id && post.posts@
            == pre.posts@.remove(i)
    &&& !has_post_id(post.posts@, id)
    &&& post.post_tags@ == assocs_removed(pre.post_tags@, id)
    &&& post.comments@ == comments_removed(pre.comments@, id)
    &&& post.stocks@ == stocks_removed_post(pre.stocks@, id)
    &&& post.tags@ == pre.tags@
    &&& post.next_post_id == pre.next_post_id
    &&& post.next_tag_id == pre.next_tag_id
    &&& post.next_comment_id == pre.next_comment_id
    &&& post.clock == pre.clock
    &&& wf(post)
}

impl Store {
    fn remove_comments_of(&mut self, pid: u64)
        requires
            wf(*old(self)),
        ensures
            final(self).comments@ == comments_removed(old(self).comments@, pid),
            final(self).posts@ == old(self).posts@,
            final(self).tags@ == old(self).tags@,
            final(self).post_tags@ == old(self).post_tags@,
            final(self).stocks@ == old(self).stocks@,
            final(self).next_post_id == old(self).next_post_id,
            final(self).next_tag_id == old(self).next_tag_id,
            final(self).next_comment_id == old(self).next_comment_id,
            final(self).clock == old(self).clock,
            wf(*final(self)),
    {
        let ghost cs0 = self.comments@;
        let mut out: Vec<CommentRecord> = Vec::new();
        let mut i: usize = 0;
        proof {
            assert(out@ =~= comments_removed(cs0.take(0), pid));
        }
        while i < self.comments.len()
            invariant
                i <= cs0.len(),
                self.comments@ == cs0,
                out@ == comments_removed(cs0.take(i as int), pid),
            decreases cs0.len() - i,
        {
            proof {
                assert(cs0.take(i + 1).drop_last() =~= cs0.take(i as int));
                assert(cs0.take(i + 1).last() == cs0[i as int]);
            }
            let c = &self.comments[i];
            if c.post_id != pid {
                let copy = CommentRecord {
                    id: c.id,
                    post_id: c.post_id,
                    user_id: c.user_id,
                    body: c.body.clone(),
                    created_at: c.created_at,
                };
                proof {
                    assert(copy == cs0[i as int]);
                }
                out.push(copy);
            }
            i += 1;
        }
        proof {
            assert(cs0.take(cs0.len() as int) =~= cs0);
        }
        self.comments = out;
        proof {
            let f = comments_removed(cs0, pid);
            assert forall|a: int, b: int| 0 <= a < b < f.len() implies #[trigger] f[a].id
                < #[trigger] f[b].id && f[a].created_at < f[b].created_at by {
                lemma_comments_removed_pair(cs0, pid, a, b);
            }
            assert forall|e: int| 0 <= e < f.len() implies (#[trigger] f[e]).id
                < self.next_comment_id && f[e].created_at < self.clock && has_post_id(
                self.posts@,
                f[e].post_id,
            ) by {
                lemma_comments_removed_elem(cs0, pid, e);
                let e0 = choose|e0: int| 0 <= e0 < cs0.len() && f[e] == #[trigger] cs0[e0];
            }
        }
    }

    fn remove_stocks_of(&mut self, pid: u64)
        requires
            wf(*old(self)),
        ensures
            final(self).stocks@ == stocks_removed_post(old(self).stocks@, pid),
            final(self).posts@ == old(self).posts@,
            final(self).tags@ == old(self).tags@,
            final(self).post_tags@ == old(self).post_tags@,
            final(self).comments@ == old(self).comments@,
            final(self).next_post_id == old(self).next_post_id,
            final(self).next_tag_id == old(self).next_tag_id,
            final(self).next_comment_id == old(self).next_comment_id,
            final(self).clock == old(self).clock,
            wf(*final(self)),
    {
        let ghost st0 = self.stocks@;
        let mut out: Vec<StockRecord> = Vec::new();
        let mut i: usize = 0;
        proof {
            assert(out@ =~= stocks_removed_post(st0.take(0), pid));
        }
        while i < self.stocks.len()
            invariant
                i <= st0.len(),
                self.stocks@ == st0,
                out@ == stocks_removed_post(st0.take(i as int), pid),
            decreases st0.len() - i,
        {
            proof {
                assert(st0.take(i + 1).drop_last() =~= st0.take(i as int));
                assert(st0.take(i + 1).last() == st0[i as int]);
            }
            let s = StockRecord {
                user_id: self.stocks[i].user_id,
                post_id: self.stocks[i].post_id,
                created_at: self.stocks[i].created_at,
            };
            if s.post_id != pid {
                out.push(s);
            }
            i += 1;
        }
        proof {
            assert(st0.take(st0.len() as int) =~= st0);
        }
        self.stocks = out;
        proof {
            let f = stocks_removed_post(st0, pid);
            lemma_stocks_removed_unique(st0, pid);
            assert forall|e: int| 0 <= e < f.len() implies (#[trigger] f[e]).created_at < self.clock
                && has_post_id(self.posts@, f[e].post_id) by {
                lemma_stocks_removed_elem(st0, pid, e);
                let e0 = choose|e0: int| 0 <= e0 < st0.len() && f[e] == #[trigger] st0[e0];
            }
        }
    }

    /// Removes a post together with its tag associations, comments and
    /// bookmarks; `NotFound` if the id is absent. Ownership is checked
    /// by the invoking layer.
    #[verifier::rlimit(50)]
    pub fn delete(&mut self, id: u64) -> (r: Result<(), RepoError>)
        requires
            wf(*old(self)),
        ensures
            match r {
                Ok(()) => has_post_id(old(self).posts@, id) && delete_ok(
                    *old(self),
                    *final(self),
                    id,
                ),
                Err(e) => e == RepoError::NotFound && !has_post_id(old(self).posts@, id)
                    && store_unchanged(*old(self), *final(self)),
            },
    {
        let ghost pre = *old(self);
        let idx = match self.find_post(id) {
            None => {
                return Err(RepoError::NotFound);
            },
            Some(i) => i,
        };
        self.remove_assocs(id);
        self.remove_comments_of(id);
        self.remove_stocks_of(id);
        let ghost before_posts = *self;
        self.posts.remove(idx);
        proof {
            assert(self.posts@ == pre.posts@.remove(idx as int));
            // remaining rows reference posts other than `id`, which survive
            assert forall|p: u64| p != id && has_post_id(pre.posts@, p) implies has_post_id(
                self.posts@,
                p,
            ) by {
                let j = choose|j: int| 0 <= j < pre.posts@.len() && (#[trigger] pre.posts@[j]).id == p;
                assert(pre.posts@[idx as int].id == id);
                if j < idx as int {
                    assert(self.posts@[j].id == p);
                } else {
                    assert(self.posts@[j - 1].id == p);
                }
            }
            assert forall|e: int| 0 <= e < self.post_tags@.len() implies has_post_id(
                self.posts@,
                (#[trigger] self.post_tags@[e]).post_id,
            ) && has_tag_id(self.tags@, self.post_tags@[e].tag_id) by {
                lemma_assocs_removed_elem(pre.post_tags@, id, e);
                let e0 = choose|e0: int|
                    0 <= e0 < pre.post_tags@.len() && self.post_tags@[e] == #[trigger] pre.post_tags@[e0];
            }
            assert forall|e: int| 0 <= e < self.comments@.len() implies has_post_id(
                self.posts@,
                (#[trigger] self.comments@[e]).post_id,
            ) by {
                lemma_comments_removed_elem(pre.comments@, id, e);
                let e0 = choose|e0: int|
                    0 <= e0 < pre.comments@.len() && self.comments@[e] == #[trigger] pre.comments@[e0];
            }
            assert forall|e: int| 0 <= e < self.stocks@.len() implies has_post_id(
                self.posts@,
                (#[trigger] self.stocks@[e]).post_id,
            ) by {
                lemma_stocks_removed_elem(pre.stocks@, id, e);
                let e0 = choose|e0: int|
                    0 <= e0 < pre.stocks@.len() && self.stocks@[e] == #[trigger] pre.stocks@[e0];
            }
            assert forall|j: int| 0 <= j < self.posts@.len() implies (#[trigger] self.posts@[j]).id
                != id by {
                if j < idx as int {
                    assert(self.posts@[j] == pre.posts@[j]);
                } else {
                    assert(self.posts@[j] == pre.posts@[j + 1]);
                }
            }
        }
        Ok(())
    }
}

/// The comments of post `pid`, in storage order (ascending creation
/// time, since comments are append-only).
pub open spec fn comments_of(cs: Seq<CommentRecord>, pid: u64) -> Seq<CommentRecord>
    decreases cs.len(),
{
    if cs.len() == 0 {
        Seq::<CommentRecord>::empty()
    } else {
        let rest = comments_of(cs.drop_last(), pid);
        if cs.last().post_id == pid {
            rest.push(cs.last())
        } else {
            rest
        }
    }
}

/// What a successful `add_comment` does to the store: one comment row
/// appended with a fresh id and the current stamp, nothing else
/// touched.
pub open spec fn comment_ok(
    pre: Store,
    post: Store,
    cid: u64,
    author_id: u64,
    pid: u64,
    body: Seq<char>,
) -> bool {
    &&& cid == pre.next_comment_id
    &&& post.comments@.len() == pre.comments@.len() + 1
    &&& post.comments@.drop_last() == pre.comments@
    &&& post.comments@.last().id == cid
    &&& post.comments@.last().post_id == pid
    &&& post.comments@.last().user_id == author_id
    &&& post.comments@.last().body@ == body
    &&& post.comments@.last().created_at == pre.clock
    &&& post.posts@ == pre.posts@
    &&& post.tags@ == pre.tags@
    &&& post.post_tags@ == pre.post_tags@
    &&& post.stocks@ == pre.stocks@
    &&& post.next_post_id == pre.next_post_id
    &&& post.next_tag_id == pre.next_tag_id
    &&& post.next_comment_id == pre.next_comment_id + 1
    &&& post.clock == pre.clock + 1
    &&& wf(post)
}

impl Store {
    /// Appends a comment to a post: `Validation` on an empty body,
    /// `NotFound` if the post is absent.
    pub fn add_comment(&mut self, author_id: u64, post_id: u64, body: String) -> (r: Result<
        u64,
        RepoError,
    >)
        requires
            wf(*old(self)),
            old(self).next_comment_id < u64::MAX,
            old(self).clock < u64::MAX,
        ensures
            match r {
                Ok(cid) => body@.len() > 0 && has_post_id(old(self).posts@, post_id) && comment_ok(
                    *old(self),
                    *final(self),
                    cid,
                    author_id,
                    post_id,
                    body@,
                ),
                Err(e) => store_unchanged(*old(self), *final(self)) && ((e == RepoError::Validation
                    && body@.len() == 0) || (e == RepoError::NotFound && body@.len() > 0
                    && !has_post_id(old(self).posts@, post_id))),
            },
    {
        if body.as_str().is_empty() {
            return Err(RepoError::Validation);
        }
        match self.find_post(post_id) {
            None => {
                return Err(RepoError::NotFound);
            },
            Some(i) => {
                proof {
                    assert(self.posts@[i as int].id == post_id);
                    assert(has_post_id(self.posts@, post_id));
                }
            },
        }
        let ghost pre = *old(self);
        let cid = self.next_comment_id;
        let stamp = self.clock;
        self.clock = stamp + 1;
        self.comments.push(
            CommentRecord { id: cid, post_id, user_id: author_id, body, created_at: stamp },
        );
        self.next_comment_id = cid + 1;
        proof {
            assert(self.comments@.drop_last() =~= pre.comments@);
        }
        Ok(cid)
    }

    /// The comments of a post, ascending by creation time.
    pub fn list_by_post(&self, post_id: u64) -> (r: Vec<CommentRecord>)
        ensures
            r@ == comments_of(self.comments@, post_id),
    {
        let ghost cs0 = self.comments@;
        let mut out: Vec<CommentRecord> = Vec::new();
        let mut i: usize = 0;
        proof {
            assert(out@ =~= comments_of(cs0.take(0), post_id));
        }
        while i < self.comments.len()
            invariant
                i <= cs0.len(),
                self.comments@ == cs0,
                out@ == comments_of(cs0.take(i as int), post_id),
            decreases cs0.len() - i,
        {
            proof {
                assert(cs0.take(i + 1).drop_last() =~= cs0.take(i as int));
                assert(cs0.take(i + 1).last() == cs0[i as int]);
            }
            let c = &self.comments[i];
            if c.post_id == post_id {
                let copy = CommentRecord {
                    id: c.id,
                    post_id: c.post_id,
                    user_id: c.user_id,
                    body: c.body.clone(),
                    created_at: c.created_at,
                };
                proof {
                    assert(copy == cs0[i as int]);
                }
                out.push(copy);
            }
            i += 1;
        }
        proof {
            assert(cs0.take(cs0.len() as int) =~= cs0);
        }
        out
    }

    /// True iff the user has bookmarked the post.
    pub fn is_stocked(&self, user_id: u64, post_id: u64) -> (r: bool)
        ensures
            r == has_stock(self.stocks@, user_id, post_id),
    {
        let mut i: usize = 0;
        while i < self.stocks.len()
            invariant
                i <= self.stocks@.len(),
                forall|k: int|
                    0 <= k < i ==> !((#[trigger] self.stocks@[k]).user_id == user_id
                        && self.stocks@[k].post_id == post_id),
            decreases self.stocks@.len() - i,
        {
            if self.stocks[i].user_id == user_id && self.stocks[i].post_id == post_id {
                return true;
            }
            i += 1;
        }
        false
    }

    fn find_stock_idx(&self, user_id: u64, post_id: u64) -> (r: Option<usize>)
        ensures
            match r {
                Some(i) => i < self.stocks@.len() && self.stocks@[i as int].user_id == user_id
                    && self.stocks@[i as int].post_id == post_id,
                None => !has_stock(self.stocks@, user_id, post_id),
            },
    {
        let mut i: usize = 0;
        while i < self.stocks.len()
            invariant
                i <= self.stocks@.len(),
                forall|k: int|
                    0 <= k < i ==> !((#[trigger] self.stocks@[k]).user_id == user_id
                        && self.stocks@[k].post_id == post_id),
            decreases self.stocks@.len() - i,
        {
            if self.stocks[i].user_id == user_id && self.stocks[i].post_id == post_id {
                return Some(i);
            }
            i += 1;
        }
        None
    }
}

/// What a successful `stock` does to the store: nothing at all if the
/// pair is already bookmarked, otherwise one bookmark row appended.
pub open spec fn stock_ok(pre: Store, post: Store, user_id: u64, post_id: u64) -> bool {
    &&& if has_stock(pre.stocks@, user_id, post_id) {
        store_unchanged(pre, post)
    } else {
        &&& post.stocks@.len() == pre.stocks@.len() + 1
        &&& post.stocks@.drop_last() == pre.stocks@
        &&& post.stocks@.last().user_id == user_id
        &&& post.stocks@.last().post_id == post_id
        &&& post.stocks@.last().created_at == pre.clock
        &&& post.posts@ == pre.posts@
        &&& post.tags@ == pre.tags@
        &&& post.post_tags@ == pre.post_tags@
        &&& post.comments@ == pre.comments@
        &&& post.next_post_id == pre.next_post_id
        &&& post.next_tag_id == pre.next_tag_id
        &&& post.next_comment_id == pre.next_comment_id
        &&& post.clock == pre.clock + 1
    }
    &&& has_stock(post.stocks@, user_id, post_id)
    &&& wf(post)
}

/// What `unstock` does to the store: nothing at all if the pair is not
/// bookmarked (absence is success, not an error), otherwise exactly
/// that bookmark row removed.
pub open spec fn unstock_ok(pre: Store, post: Store, user_id: u64, post_id: u64) -> bool {
    &&& if !has_stock(pre.stocks@, user_id, post_id) {
        store_unchanged(pre, post)
    } else {
        &&& exists|i: int|
            0 <= i < pre.stocks@.len() && (#[trigger] pre.stocks@[i]).user_id == user_id
                && pre.stocks@[i].post_id == post_id && post.stocks@ == pre.stocks@.remove(i)
        &&& post.posts@ == pre.posts@
        &&& post.tags@ == pre.tags@
        &&& post.post_tags@ == pre.post_tags@
        &&& post.comments@ == pre.comments@
        &&& post.next_post_id == pre.next_post_id
        &&& post.next_tag_id == pre.next_tag_id
        &&& post.next_comment_id == pre.next_comment_id
        &&& post.clock == pre.clock
    }
    &&& !has_stock(post.stocks@, user_id, post_id)
    &&& wf(post)
}

impl Store {
    /// Bookmarks a post for a user, idempotently: bookmarking an
    /// already-bookmarked post succeeds silently without a second row.
    /// `NotFound` if the post is absent.
    pub fn stock(&mut self, user_id: u64, post_id: u64) -> (r: Result<(), RepoError>)
        requires
            wf(*old(self)),
            old(self).clock < u64::MAX,
        ensures
            match r {
                Ok(()) => has_post_id(old(self).posts@, post_id) && stock_ok(
                    *old(self),
                    *final(self),
                    user_id,
                    post_id,
                ),
                Err(e) => e == RepoError::NotFound && !has_post_id(old(self).posts@, post_id)
                    && store_unchanged(*old(self), *final(self)),
            },
    {
        let ghost pre = *old(self);
        match self.find_post(post_id) {
            None => {
                return Err(RepoError::NotFound);
            },
            Some(i) => {
                proof {
                    assert(self.posts@[i as int].id == post_id);
                    assert(has_post_id(self.posts@, post_id));
                }
            },
        }
        if self.is_stocked(user_id, post_id) {
            return Ok(());
        }
        let stamp = self.clock;
        self.clock = stamp + 1;
        self.stocks.push(StockRecord { user_id, post_id, created_at: stamp });
        proof {
            assert(self.stocks@.drop_last() =~= pre.stocks@);
            assert(self.stocks@[self.stocks@.len() - 1].user_id == user_id);
            assert(has_stock(self.stocks@, user_id, post_id));
        }
        Ok(())
    }

    /// Removes a user's bookmark of a post, idempotently: removing an
    /// absent bookmark succeeds silently with no state change.
    pub fn unstock(&mut self, user_id: u64, post_id: u64) -> (r: Result<(), RepoError>)
        requires
            wf(*old(self)),
        ensures
            r is Ok,
            unstock_ok(*old(self), *final(self), user_id, post_id),
    {
        let ghost pre = *old(self);
        match self.find_stock_idx(user_id, post_id) {
            None => Ok(()),
            Some(i) => {
                self.stocks.remove(i);
                proof {
                    assert(pre.stocks@[i as int].user_id == user_id && pre.stocks@[i as int].post_id
                        == post_id);
                    assert forall|j: int| 0 <= j < self.stocks@.len() implies !((
                    #[trigger] self.stocks@[j]).user_id == user_id && self.stocks@[j].post_id
                        == post_id) by {
                        if j < i as int {
                            assert(self.stocks@[j] == pre.stocks@[j]);
                        } else {
                            assert(self.stocks@[j] == pre.stocks@[j + 1]);
                        }
                    }
                    assert forall|j: int| 0 <= j < self.stocks@.len() implies has_post_id(
                        self.posts@,
                        (#[trigger] self.stocks@[j]).post_id,
                    ) && self.stocks@[j].created_at < self.clock by {
                        if j < i as int {
                            assert(self.stocks@[j] == pre.stocks@[j]);
                        } else {
                            assert(self.stocks@[j] == pre.stocks@[j + 1]);
                        }
                    }
                    assert(has_stock(pre.stocks@, user_id, post_id));
                }
                Ok(())
            },
        }
    }
}

/// The number of bookmark rows for a (user, post) pair.
pub open spec fn stock_count(st: Seq<StockRecord>, user_id: u64, post_id: u64) -> int
    decreases st.len(),
{
    if st.len() == 0 {
        0
    } else {
        stock_count(st.drop_last(), user_id, post_id) + if st.last().user_id == user_id
            && st.last().post_id == post_id {
            1int
        } else {
            0int
        }
    }
}

proof fn lemma_stock_count_zero(st: Seq<StockRecord>, user_id: u64, post_id: u64)
    requires
        forall|i: int|
            0 <= i < st.len() ==> !((#[trigger] st[i]).user_id == user_id && st[i].post_id
                == post_id),
    ensures
        stock_count(st, user_id, post_id) == 0,
    decreases st.len(),
{
    if st.len() > 0 {
        assert(forall|i: int| 0 <= i < st.drop_last().len() ==> st.drop_last()[i] == #[trigger] st[i]);
        lemma_stock_count_zero(st.drop_last(), user_id, post_id);
    }
}

/// With unique pairs, a bookmarked pair has exactly one row.
pub proof fn lemma_stock_count_one(st: Seq<StockRecord>, user_id: u64, post_id: u64)
    requires
        stock_pairs_unique(st),
        has_stock(st, user_id, post_id),
    ensures
        stock_count(st, user_id, post_id) == 1,
    decreases st.len(),
{
    let front = st.drop_last();
    assert(forall|i: int| 0 <= i < front.len() ==> front[i] == #[trigger] st[i]);
    if st.last().user_id == user_id && st.last().post_id == post_id {
        assert forall|i: int| 0 <= i < front.len() implies !((#[trigger] front[i]).user_id == user_id
            && front[i].post_id == post_id) by {
            assert(!(st[i].user_id == st[st.len() - 1].user_id && st[i].post_id
                == st[st.len() - 1].post_id));
        }
        lemma_stock_count_zero(front, user_id, post_id);
    } else {
        let i = choose|i: int|
            0 <= i < st.len() && (#[trigger] st[i]).user_id == user_id && st[i].post_id == post_id;
        assert(i < front.len());
        assert(front[i] == st[i]);
        assert(has_stock(front, user_id, post_id));
        lemma_stock_count_one(front, user_id, post_id);
    }
}

/// Bookmarking is idempotent: after a second `stock` of the same
/// (user, post) pair the store is exactly as after the first, and the
/// pair is held by exactly one bookmark row.
pub proof fn lemma_stock_idempotent(s0: Store, s1: Store, s2: Store, user_id: u64, post_id: u64)
    requires
        wf(s0),
        stock_ok(s0, s1, user_id, post_id),
        stock_ok(s1, s2, user_id, post_id),
    ensures
        s2.stocks@ == s1.stocks@,
        stock_count(s1.stocks@, user_id, post_id) == 1,
        stock_count(s2.stocks@, user_id, post_id) == 1,
{
    lemma_stock_count_one(s1.stocks@, user_id, post_id);
}

/// Whether a post row passes a kind filter (`None` accepts all).
pub open spec fn matches_kind(rec: PostRecord, f: Option<PostKind>) -> bool {
    match f {
        Option::None => true,
        Option::Some(k) => rec.kind == k,
    }
}

/// The posts passing the filter, newest first (posts are stored in
/// creation order, so newest-first is the reverse of storage order).
pub open spec fn posts_desc(posts: Seq<PostRecord>, f: Option<PostKind>) -> Seq<PostRecord>
    decreases posts.len(),
{
    if posts.len() == 0 {
        Seq::<PostRecord>::empty()
    } else {
        let rest = posts_desc(posts.drop_last(), f);
        if matches_kind(posts.last(), f) {
            seq![posts.last()] + rest
        } else {
            rest
        }
    }
}

/// The owner's draft posts, newest first.
pub open spec fn drafts_desc(posts: Seq<PostRecord>, owner_id: u64) -> Seq<PostRecord>
    decreases posts.len(),
{
    if posts.len() == 0 {
        Seq::<PostRecord>::empty()
    } else {
        let rest = drafts_desc(posts.drop_last(), owner_id);
        if posts.last().user_id == owner_id && posts.last().status == PostStatus::Draft {
            seq![posts.last()] + rest
        } else {
            rest
        }
    }
}

/// The ids of the posts a user has bookmarked, newest bookmark first.
pub open spec fn stocked_desc(stocks: Seq<StockRecord>, user_id: u64) -> Seq<u64>
    decreases stocks.len(),
{
    if stocks.len() == 0 {
        Seq::<u64>::empty()
    } else {
        let rest = stocked_desc(stocks.drop_last(), user_id);
        if stocks.last().user_id == user_id {
            seq![stocks.last().post_id] + rest
        } else {
            rest
        }
    }
}

/// The filtered listing is never longer than the table.
pub proof fn lemma_posts_desc_len(posts: Seq<PostRecord>, f: Option<PostKind>)
    ensures
        posts_desc(posts, f).len() <= posts.len(),
    decreases posts.len(),
{
    if posts.len() > 0 {
        lemma_posts_desc_len(posts.drop_last(), f);
    }
}

/// The page of `s` that starts at `offset` and holds at most `limit`
/// items: empty past the end, truncated at the end.
pub open spec fn window<T>(s: Seq<T>, offset: u64, limit: u64) -> Seq<T> {
    if offset as int >= s.len() {
        Seq::<T>::empty()
    } else if offset as int + limit as int <= s.len() {
        s.subrange(offset as int, offset as int + limit as int)
    } else {
        s.subrange(offset as int, s.len() as int)
    }
}

fn clone_post_record(r: &PostRecord) -> (c: PostRecord)
    ensures
        c == *r,
{
    PostRecord {
        id: r.id,
        kind: r.kind,
        user_id: r.user_id,
        title: r.title.clone(),
        body: r.body.clone(),
        status: r.status,
        created_at: r.created_at,
        updated_at: r.updated_at,
    }
}

fn window_posts(v: Vec<PostRecord>, offset: u64, limit: u64) -> (r: Vec<PostRecord>)
    ensures
        r@ == window(v@, offset, limit),
{
    let n = v.len();
    if offset >= n as u64 {
        proof {
            assert(window(v@, offset, limit) =~= Seq::<PostRecord>::empty());
        }
        return Vec::new();
    }
    let lo: usize = offset as usize;
    let hi: usize = if limit > (n - lo) as u64 {
        n
    } else {
        lo + limit as usize
    };
    let mut out: Vec<PostRecord> = Vec::new();
    let mut t: usize = lo;
    proof {
        assert(out@ =~= v@.subrange(lo as int, lo as int));
    }
    while t < hi
        invariant
            lo <= t <= hi <= v@.len(),
            out@ == v@.subrange(lo as int, t as int),
        decreases hi - t,
    {
        let c = clone_post_record(&v[t]);
        out.push(c);
        proof {
            assert(out@ =~= v@.subrange(lo as int, t + 1));
        }
        t += 1;
    }
    proof {
        assert(out@ =~= window(v@, offset, limit));
    }
    out
}

impl Store {
    fn filtered_desc(&self, f: Option<PostKind>) -> (r: Vec<PostRecord>)
        ensures
            r@ == posts_desc(self.posts@, f),
    {
        let ghost ps = self.posts@;
        let mut out: Vec<PostRecord> = Vec::new();
        let mut i: usize = 0;
        proof {
            assert(out@ =~= posts_desc(ps.take(0), f));
        }
        while i < self.posts.len()
            invariant
                i <= ps.len(),
                self.posts@ == ps,
                out@ == posts_desc(ps.take(i as int), f),
            decreases ps.len() - i,
        {
            proof {
                assert(ps.take(i + 1).drop_last() =~= ps.take(i as int));
                assert(ps.take(i + 1).last() == ps[i as int]);
            }
            let keep = match f {
                Option::None => true,
                Option::Some(k) => self.posts[i].kind == k,
            };
            if keep {
                let c = clone_post_record(&self.posts[i]);
                let ghost prev = out@;
                out.insert(0, c);
                proof {
                    assert(out@ =~= seq![ps[i as int]] + prev);
                }
            }
            i += 1;
        }
        proof {
            assert(ps.take(ps.len() as int) =~= ps);
        }
        out
    }

    /// The posts of one kind, newest first, windowed by offset and
    /// limit: an offset past the end yields an empty page, not an
    /// error.
    pub fn list(&self, kind: PostKind, offset: u64, limit: u64) -> (r: Vec<PostRecord>)
        ensures
            r@ == window(posts_desc(self.posts@, Option::Some(kind)), offset, limit),
    {
        let filtered = self.filtered_desc(Some(kind));
        window_posts(filtered, offset, limit)
    }

    /// All posts regardless of kind, newest first, windowed.
    pub fn list_all(&self, offset: u64, limit: u64) -> (r: Vec<PostRecord>)
        ensures
            r@ == window(posts_desc(self.posts@, Option::None), offset, limit),
    {
        let filtered = self.filtered_desc(None);
        window_posts(filtered, offset, limit)
    }

    /// How many posts of one kind the store holds.
    pub fn count(&self, kind: PostKind) -> (r: u64)
        ensures
            r == posts_desc(self.posts@, Option::Some(kind)).len(),
    {
        let filtered = self.filtered_desc(Some(kind));
        filtered.len() as u64
    }

    /// How many posts the store holds in all.
    pub fn count_all(&self) -> (r: u64)
        ensures
            r == posts_desc(self.posts@, Option::None).len(),
    {
        let filtered = self.filtered_desc(None);
        filtered.len() as u64
    }

    /// The owner's draft posts, newest first.
    pub fn list_drafts(&self, owner_id: u64) -> (r: Vec<PostRecord>)
        ensures
            r@ == drafts_desc(self.posts@, owner_id),
    {
        let ghost ps = self.posts@;
        let mut out: Vec<PostRecord> = Vec::new();
        let mut i: usize = 0;
        proof {
            assert(out@ =~= drafts_desc(ps.take(0), owner_id));
        }
        while i < self.posts.len()
            invariant
                i <= ps.len(),
                self.posts@ == ps,
                out@ == drafts_desc(ps.take(i as int), owner_id),
            decreases ps.len() - i,
        {
            proof {
                assert(ps.take(i + 1).drop_last() =~= ps.take(i as int));
                assert(ps.take(i + 1).last() == ps[i as int]);
            }
            let keep = self.posts[i].user_id == owner_id && matches!(
                self.posts[i].status,
                PostStatus::Draft
            );
            if keep {
                let c = clone_post_record(&self.posts[i]);
                let ghost prev = out@;
                out.insert(0, c);
                proof {
                    assert(out@ =~= seq![ps[i as int]] + prev);
                }
            }
            i += 1;
        }
        proof {
            assert(ps.take(ps.len() as int) =~= ps);
        }
        out
    }

    /// How many posts the user has bookmarked.
    pub fn stocked_count(&self, user_id: u64) -> (r: u64)
        ensures
            r == stocked_desc(self.stocks@, user_id).len(),
    {
        let ghost st = self.stocks@;
        let mut cnt: usize = 0;
        let mut i: usize = 0;
        proof {
            assert(stocked_desc(st.take(0), user_id) =~= Seq::<u64>::empty());
        }
        while i < self.stocks.len()
            invariant
                i <= st.len(),
                self.stocks@ == st,
                cnt == stocked_desc(st.take(i as int), user_id).len(),
                cnt <= i,
            decreases st.len() - i,
        {
            proof {
                assert(st.take(i + 1).drop_last() =~= st.take(i as int));
                assert(st.take(i + 1).last() == st[i as int]);
            }
            if self.stocks[i].user_id == user_id {
                cnt += 1;
            }
            i += 1;
        }
        proof {
            assert(st.take(st.len() as int) =~= st);
        }
        cnt as u64
    }

    /// The posts a user has bookmarked, newest bookmark first,
    /// windowed by offset and limit.
    pub fn list_stocked(&self, user_id: u64, offset: u64, limit: u64) -> (r: Vec<PostRecord>)
        requires
            wf(*self),
        ensures
            r@.len() == window(stocked_desc(self.stocks@, user_id), offset, limit).len(),
            forall|k: int|
                0 <= k < r@.len() ==> (#[trigger] r@[k]).id == window(
                    stocked_desc(self.stocks@, user_id),
                    offset,
                    limit,
                )[k] && exists|i: int| 0 <= i < self.posts@.len() && #[trigger] self.posts@[i] == r@[k],
    {
        let ghost st = self.stocks@;
        let mut ids: Vec<u64> = Vec::new();
        let mut i: usize = 0;
        proof {
            assert(ids@ =~= stocked_desc(st.take(0), user_id));
        }
        while i < self.stocks.len()
            invariant
                i <= st.len(),
                self.stocks@ == st,
                ids@ == stocked_desc(st.take(i as int), user_id),
                forall|k: int| 0 <= k < ids@.len() ==> has_post_id(self.posts@, #[trigger] ids@[k]),
                wf(*self),
            decreases st.len() - i,
        {
            proof {
                assert(st.take(i + 1).drop_last() =~= st.take(i as int));
                assert(st.take(i + 1).last() == st[i as int]);
            }
            if self.stocks[i].user_id == user_id {
                let ghost prev = ids@;
                ids.insert(0, self.stocks[i].post_id);
                proof {
                    assert(ids@ =~= seq![st[i as int].post_id] + prev);
                    assert(has_post_id(self.posts@, st[i as int].post_id));
                }
            }
            i += 1;
        }
        proof {
            assert(st.take(st.len() as int) =~= st);
        }
        let n = ids.len();
        let ghost idseq = ids@;
        if offset >= n as u64 {
            proof {
                assert(window(stocked_desc(st, user_id), offset, limit) =~= Seq::<u64>::empty());
            }
            return Vec::new();
        }
        let lo: usize = offset as usize;
        let hi: usize = if limit > (n - lo) as u64 {
            n
        } else {
            lo + limit as usize
        };
        let mut out: Vec<PostRecord> = Vec::new();
        let mut t: usize = lo;
        while t < hi
            invariant
                lo <= t <= hi <= ids@.len(),
                ids@ == idseq,
                self.stocks@ == st,
                wf(*self),
                forall|k: int| 0 <= k < ids@.len() ==> has_post_id(self.posts@, #[trigger] ids@[k]),
                out@.len() == t - lo,
                forall|k: int|
                    0 <= k < out@.len() ==> (#[trigger] out@[k]).id == ids@[lo + k] && exists|i2: int|
                        0 <= i2 < self.posts@.len() && #[trigger] self.posts@[i2] == out@[k],
            decreases hi - t,
        {
            let pid = ids[t];
            match self.find_post(pid) {
                Some(idx) => {
                    let c = clone_post_record(&self.posts[idx]);
                    out.push(c);
                },
                None => {
                    proof {
                        assert(has_post_id(self.posts@, pid));
                    }
                    unreached()
                },
            }
            t += 1;
        }
        proof {
            let w = window(stocked_desc(st, user_id), offset, limit);
            assert(w =~= idseq.subrange(lo as int, hi as int));
        }
        out
    }
}

/// What `get` returns for a stored post: the stored fields and the
/// resolved tag names.
pub open spec fn get_post_spec(s: Store, id: u64, p: Post) -> bool {
    exists|i: int|
        0 <= i < s.posts@.len() && (#[trigger] s.posts@[i]).id == id && p.id == id && p.kind
            == s.posts@[i].kind && p.user_id == s.posts@[i].user_id && p.title == s.posts@[i].title
            && p.body == s.posts@[i].body && p.status == s.posts@[i].status && p.created_at
            == s.posts@[i].created_at && p.updated_at == s.posts@[i].updated_at && p.tags.deep_view()
            == tag_names_of(s, id)
}

impl Store {
    /// Fetches a post with its resolved tag list; `NotFound` if the id
    /// is absent.
    pub fn get(&self, id: u64) -> (r: Result<Post, RepoError>)
        requires
            wf(*self),
        ensures
            match r {
                Ok(p) => has_post_id(self.posts@, id) && get_post_spec(*self, id, p),
                Err(e) => e == RepoError::NotFound && !has_post_id(self.posts@, id),
            },
    {
        match self.find_post(id) {
            None => Err(RepoError::NotFound),
            Some(i) => {
                let rec = &self.posts[i];
                let tags = self.names_for(id);
                let p = Post {
                    id: rec.id,
                    kind: rec.kind,
                    user_id: rec.user_id,
                    title: rec.title.clone(),
                    body: rec.body.clone(),
                    status: rec.status,
                    created_at: rec.created_at,
                    updated_at: rec.updated_at,
                    tags,
                };
                proof {
                    assert(0 <= i < self.posts@.len() && self.posts@[i as int].id == id);
                }
                Ok(p)
            },
        }
    }
}

/// Round trip: a post that `create` just inserted is returned by
/// `get` with the same kind, owner, title, body and status, and with
/// a tag list equal to the normalized parse of its tag string.
pub proof fn lemma_create_then_get(
    pre: Store,
    post: Store,
    pid: u64,
    kind: PostKind,
    owner_id: u64,
    title: Seq<char>,
    body: Seq<char>,
    tag_string: Seq<char>,
    action: PostAction,
    p: Post,
)
    requires
        wf(pre),
        create_ok(pre, post, pid, kind, owner_id, title, body, tag_string, action),
        get_post_spec(post, pid, p),
    ensures
        p.kind == kind,
        p.user_id == owner_id,
        p.title@ == title,
        p.body@ == body,
        p.status == status_of(action),
        p.created_at == pre.clock,
        p.tags.deep_view() == spec_parse_tags(tag_string),
{
    let i = choose|i: int|
        0 <= i < post.posts@.len() && (#[trigger] post.posts@[i]).id == pid && p.id == pid && p.kind
            == post.posts@[i].kind && p.user_id == post.posts@[i].user_id && p.title
            == post.posts@[i].title && p.body == post.posts@[i].body && p.status
            == post.posts@[i].status && p.created_at == post.posts@[i].created_at && p.updated_at
            == post.posts@[i].updated_at && p.tags.deep_view() == tag_names_of(post, pid);
    let last = post.posts@.len() - 1;
    assert(post.posts@[last].id == pid);
    if i != last {
        assert(post.posts@[i].id < post.posts@[last].id);
        assert(false);
    }
}

/// Round trip: after `update`, `get` returns the replaced title, body
/// and status, and a tag list equal to the normalized parse of the new
/// tag string — associations not in the new set are gone, new ones
/// present (set-difference semantics, not append).
pub proof fn lemma_update_then_get(
    pre: Store,
    post: Store,
    id: u64,
    title: Seq<char>,
    body: Seq<char>,
    tag_string: Seq<char>,
    action: PostAction,
    p: Post,
)
    requires
        wf(pre),
        update_ok(pre, post, id, title, body, tag_string, action),
        get_post_spec(post, id, p),
    ensures
        p.title@ == title,
        p.body@ == body,
        p.status == status_of(action),
        p.tags.deep_view() == spec_parse_tags(tag_string),
{
    let j = choose|j: int|
        0 <= j < post.posts@.len() && (#[trigger] post.posts@[j]).id == id && p.id == id && p.kind
            == post.posts@[j].kind && p.user_id == post.posts@[j].user_id && p.title
            == post.posts@[j].title && p.body == post.posts@[j].body && p.status
            == post.posts@[j].status && p.created_at == post.posts@[j].created_at && p.updated_at
            == post.posts@[j].updated_at && p.tags.deep_view() == tag_names_of(post, id);
    if pre.posts@[j].id != id {
        assert(post.posts@[j] == pre.posts@[j]);
        assert(false);
    }
}

} // verus!
