use vstd::prelude::*;

use crate::store::{PostAction, PostKind};
use crate::strconv::{u64_digits, u64_to_string};
use vstd::string::StringExecFns;

verus! {

/// A change-notification payload as handed to the outbound sink:
/// who acted, a short title, the detail text (a body or a rendered
/// diff), and a permalink built from the team domain and the post id.
/// Delivery itself is outside this crate and best-effort; a delivery
/// failure never rolls back the write that triggered the payload.
pub struct Notification {
    pub actor_id: u64,
    pub title: String,
    pub detail: String,
    pub post_id: u64,
    pub link: String,
}

/// The show-route path segment for a post kind.
pub open spec fn route_of(kind: PostKind) -> Seq<char> {
    if kind == PostKind::Post {
        "post/show"@
    } else {
        "nippo/show"@
    }
}

/// The permalink of a post: `<domain>/<route>/<id>`.
pub open spec fn permalink_of(domain: Seq<char>, kind: PostKind, post_id: u64) -> Seq<char> {
    domain + "/"@ + route_of(kind) + "/"@ + u64_digits(post_id)
}

/// Builds a post's permalink from the configured team domain.
pub fn permalink(domain: &str, kind: PostKind, post_id: u64) -> (r: String)
    ensures
        r@ == permalink_of(domain@, kind, post_id),
{
    let mut s = String::from_str(domain);
    s.append("/");
    match kind {
        PostKind::Post => s.append("post/show"),
        PostKind::Nippo => s.append("nippo/show"),
    }
    s.append("/");
    let digits = u64_to_string(post_id);
    s.append(digits.as_str());
    proof {
        assert(s@ =~= permalink_of(domain@, kind, post_id));
    }
    s
}

/// Whether a post write warrants an outbound notification: only an
/// explicit publish does; a silent draft save does not. New comments
/// notify unconditionally and do not pass through here.
pub fn should_notify(action: PostAction) -> (r: bool)
    ensures
        r == (action == PostAction::Publish),
{
    match action {
        PostAction::Publish => true,
        PostAction::Save => false,
    }
}

/// Assembles a notification payload.
pub fn build_notification(
    domain: &str,
    kind: PostKind,
    actor_id: u64,
    title: String,
    detail: String,
    post_id: u64,
) -> (n: Notification)
    ensures
        n.actor_id == actor_id,
        n.title == title,
        n.detail == detail,
        n.post_id == post_id,
        n.link@ == permalink_of(domain@, kind, post_id),
{
    let link = permalink(domain, kind, post_id);
    Notification { actor_id, title, detail, post_id, link }
}

} // verus!
