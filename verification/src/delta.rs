use vstd::prelude::*;

use crate::text::{push_char, split_on};
use vstd::string::StringExecFns;

verus! {

/// One entry of a computed revision diff: a line present only in the
/// old body, only in the new body, or in both.
#[derive(Debug, PartialEq)]
pub enum DiffLine {
    Removed(String),
    Added(String),
    Unchanged(String),
}

/// The old-document lines an edit script accounts for, in order.
pub open spec fn old_side(d: Seq<DiffLine>) -> Seq<Seq<char>>
    decreases d.len(),
{
    if d.len() == 0 {
        Seq::<Seq<char>>::empty()
    } else {
        let rest = old_side(d.drop_last());
        match d.last() {
            DiffLine::Removed(s) => rest.push(s@),
            DiffLine::Unchanged(s) => rest.push(s@),
            DiffLine::Added(_) => rest,
        }
    }
}

/// The new-document lines an edit script accounts for, in order.
pub open spec fn new_side(d: Seq<DiffLine>) -> Seq<Seq<char>>
    decreases d.len(),
{
    if d.len() == 0 {
        Seq::<Seq<char>>::empty()
    } else {
        let rest = new_side(d.drop_last());
        match d.last() {
            DiffLine::Added(s) => rest.push(s@),
            DiffLine::Unchanged(s) => rest.push(s@),
            DiffLine::Removed(_) => rest,
        }
    }
}

/// A piece with a trailing carriage return loses it.
pub open spec fn strip_cr(l: Seq<char>) -> Seq<char> {
    if l.len() > 0 && l.last() == '\r' {
        l.drop_last()
    } else {
        l
    }
}

/// How the diff splits a document into lines: the pieces between
/// newline characters, each piece but the last losing a trailing
/// carriage return; the empty document has no lines, and a document
/// ending in a newline has a trailing empty line.
pub open spec fn doc_lines(s: Seq<char>) -> Seq<Seq<char>> {
    if s.len() == 0 {
        Seq::<Seq<char>>::empty()
    } else {
        let ps = split_on(s, '\n');
        Seq::new(
            ps.len(),
            |i: int|
                if i < ps.len() - 1 {
                    strip_cr(ps[i])
                } else {
                    ps[i]
                },
        )
    }
}

/// Relies on diff::lines: the edit script lists every line of the old
/// document, tagged removed or unchanged, in document order, and every
/// line of the new document, tagged added or unchanged, in document
/// order; an unchanged entry's line occurs in both documents.
#[verifier::external_body]
fn lines_script(old_body: &str, new_body: &str) -> (r: Vec<DiffLine>)
    ensures
        old_side(r@) == doc_lines(old_body@),
        new_side(r@) == doc_lines(new_body@),
{
    diff::lines(old_body, new_body)
        .into_iter()
        .map(|d| match d {
            diff::Result::Left(l) => DiffLine::Removed(l.to_string()),
            diff::Result::Both(l, _) => DiffLine::Unchanged(l.to_string()),
            diff::Result::Right(r) => DiffLine::Added(r.to_string()),
        })
        .collect()
}

/// Computes the line-level diff between two revisions of a body:
/// a minimal edit script over lines, in document order.
pub fn diff_lines(old_body: &str, new_body: &str) -> (r: Vec<DiffLine>)
    ensures
        old_side(r@) == doc_lines(old_body@),
        new_side(r@) == doc_lines(new_body@),
{
    lines_script(old_body, new_body)
}

/// The rendered form of an edit script: removed lines prefixed `-`,
/// added lines prefixed `+`, each followed by a newline; unchanged
/// lines are left out.
pub open spec fn render_spec(d: Seq<DiffLine>) -> Seq<char>
    decreases d.len(),
{
    if d.len() == 0 {
        Seq::<char>::empty()
    } else {
        render_spec(d.drop_last()) + match d.last() {
            DiffLine::Removed(s) => seq!['-'] + s@ + seq!['\n'],
            DiffLine::Added(s) => seq!['+'] + s@ + seq!['\n'],
            DiffLine::Unchanged(_) => Seq::<char>::empty(),
        }
    }
}

/// Renders an edit script for human consumption.
pub fn render(d: &Vec<DiffLine>) -> (r: String)
    ensures
        r@ == render_spec(d@),
{
    let mut out = String::new();
    let mut i: usize = 0;
    while i < d.len()
        invariant
            i <= d.len(),
            out@ == render_spec(d@.take(i as int)),
        decreases d.len() - i,
    {
        proof {
            assert(d@.take(i + 1).drop_last() =~= d@.take(i as int));
            assert(d@.take(i + 1).last() == d@[i as int]);
        }
        let ghost pre = out@;
        match &d[i] {
            DiffLine::Removed(s) => {
                push_char(&mut out, '-');
                out.append(s.as_str());
                push_char(&mut out, '\n');
                proof {
                    assert(out@ =~= pre + (seq!['-'] + s@ + seq!['\n']));
                }
            },
            DiffLine::Added(s) => {
                push_char(&mut out, '+');
                out.append(s.as_str());
                push_char(&mut out, '\n');
                proof {
                    assert(out@ =~= pre + (seq!['+'] + s@ + seq!['\n']));
                }
            },
            DiffLine::Unchanged(_) => {
                proof {
                    assert(out@ =~= pre + Seq::<char>::empty());
                }
            },
        }
        i += 1;
    }
    proof {
        assert(d@.take(d@.len() as int) =~= d@);
    }
    out
}

/// The diff text sent toward the notification sink when a post body is
/// republished: some edit script accounting for exactly the lines of
/// the two bodies, rendered with `-` and `+` prefixes.
pub fn diff_text(old_body: &str, new_body: &str) -> (r: String)
    ensures
        exists|d: Seq<DiffLine>|
            old_side(d) == doc_lines(old_body@) && new_side(d) == doc_lines(new_body@) && r@
                == render_spec(d),
{
    let d = diff_lines(old_body, new_body);
    let r = render(&d);
    proof {
        assert(old_side(d@) == doc_lines(old_body@) && new_side(d@) == doc_lines(new_body@) && r@
            == render_spec(d@));
    }
    r
}

} // verus!
