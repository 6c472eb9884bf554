use vstd::prelude::*;

use crate::text::{contains_string, lower_of, lowercase, push_char, split_on, split_str};
use vstd::string::StringExecFns;

verus! {

/// Normalizes a list of raw tag pieces: each piece is case-normalized,
/// empty pieces are dropped, and a name that already occurred is
/// dropped too (first occurrence wins).
pub open spec fn norm_tags(pieces: Seq<Seq<char>>) -> Seq<Seq<char>>
    decreases pieces.len(),
{
    if pieces.len() == 0 {
        Seq::<Seq<char>>::empty()
    } else {
        let prev = norm_tags(pieces.drop_last());
        let p = pieces.last();
        if p.len() == 0 {
            prev
        } else {
            let l = lower_of(p);
            if prev.contains(l) {
                prev
            } else {
                prev.push(l)
            }
        }
    }
}

/// The normalized parse of a comma-separated tag string.
pub open spec fn spec_parse_tags(s: Seq<char>) -> Seq<Seq<char>> {
    norm_tags(split_on(s, ','))
}

/// The normalized parse never repeats a name.
pub proof fn lemma_norm_tags_distinct(pieces: Seq<Seq<char>>)
    ensures
        forall|i: int, j: int|
            0 <= i < j < norm_tags(pieces).len() ==> norm_tags(pieces)[i] != norm_tags(pieces)[j],
    decreases pieces.len(),
{
    if pieces.len() > 0 {
        lemma_norm_tags_distinct(pieces.drop_last());
        let prev = norm_tags(pieces.drop_last());
        let cur = norm_tags(pieces);
        if cur.len() == prev.len() + 1 {
            assert(forall|i: int| 0 <= i < prev.len() ==> cur[i] == prev[i]);
            assert(!prev.contains(cur.last()));
            assert(forall|i: int| 0 <= i < prev.len() ==> prev[i] != cur.last());
        }
    }
}

/// The normalized parse is never longer than the piece list.
pub proof fn lemma_norm_tags_len(pieces: Seq<Seq<char>>)
    ensures
        norm_tags(pieces).len() <= pieces.len(),
    decreases pieces.len(),
{
    if pieces.len() > 0 {
        lemma_norm_tags_len(pieces.drop_last());
    }
}

/// Parses a comma-separated tag string into the normalized tag-name
/// list: split on commas, case-normalize each piece, drop empty pieces
/// and duplicates (first occurrence wins, order kept).
pub fn parse_tags(s: &str) -> (r: Vec<String>)
    ensures
        r.deep_view() == spec_parse_tags(s@),
{
    let pieces = split_str(s, ',');
    let mut out: Vec<String> = Vec::new();
    let mut i: usize = 0;
    while i < pieces.len()
        invariant
            i <= pieces.len(),
            pieces.deep_view() == split_on(s@, ','),
            out.deep_view() == norm_tags(pieces.deep_view().take(i as int)),
        decreases pieces.len() - i,
    {
        proof {
            assert(pieces.deep_view().take(i + 1).drop_last() =~= pieces.deep_view().take(
                i as int,
            ));
            assert(pieces.deep_view().take(i + 1).last() == pieces.deep_view()[i as int]);
            assert(pieces.deep_view()[i as int] == pieces@[i as int]@);
        }
        let p = &pieces[i];
        if !p.as_str().is_empty() {
            let l = lowercase(p.as_str());
            if !contains_string(&out, &l) {
                let ghost prev_out = out.deep_view();
                out.push(l);
                proof {
                    assert(out.deep_view() =~= prev_out.push(lower_of(p@)));
                }
            }
        }
        i += 1;
    }
    proof {
        assert(pieces.deep_view().take(pieces@.len() as int) =~= pieces.deep_view());
    }
    out
}

/// The comma-separated form of a tag-name list, as shown in the edit
/// form.
pub open spec fn spec_join_tags(names: Seq<Seq<char>>) -> Seq<char>
    decreases names.len(),
{
    if names.len() == 0 {
        Seq::<char>::empty()
    } else if names.len() == 1 {
        names.last()
    } else {
        spec_join_tags(names.drop_last()) + seq![','] + names.last()
    }
}

/// Joins tag names back into the comma-separated form the edit form
/// shows.
pub fn join_tags(names: &Vec<String>) -> (r: String)
    ensures
        r@ == spec_join_tags(names.deep_view()),
{
    let mut out = String::new();
    let mut i: usize = 0;
    proof {
        assert(out@ =~= spec_join_tags(names.deep_view().take(0)));
    }
    while i < names.len()
        invariant
            i <= names@.len(),
            out@ == spec_join_tags(names.deep_view().take(i as int)),
        decreases names@.len() - i,
    {
        proof {
            assert(names.deep_view().take(i + 1).drop_last() =~= names.deep_view().take(i as int));
            assert(names.deep_view().take(i + 1).last() == names@[i as int]@);
        }
        let ghost pre = out@;
        if i > 0 {
            push_char(&mut out, ',');
        }
        out.append(names[i].as_str());
        proof {
            if i > 0 {
                assert(out@ =~= pre + seq![','] + names@[i as int]@);
            } else {
                assert(out@ =~= names@[0]@);
            }
        }
        i += 1;
    }
    proof {
        assert(names.deep_view().take(names@.len() as int) =~= names.deep_view());
    }
    out
}

} // verus!
