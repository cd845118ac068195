//! Route labels for request metrics: a request path with every segment that
//! is not a known route name replaced by `*`, so that ids do not each get a
//! label of their own.
use vstd::prelude::*;

use crate::text::{lemma_split_on_start, lemma_split_on_step, split_on};

verus! {

/// The views of the known route names.
pub open spec fn label_views(labels: Seq<String>) -> Seq<Seq<char>> {
    labels.map_values(|l: String| l@)
}

/// The label text after one more path segment: a known name is kept, an
/// empty segment adds nothing, and any other segment becomes `*`.
pub open spec fn sanitize_step(acc: Seq<char>, labels: Seq<Seq<char>>, segment: Seq<char>) -> Seq<char> {
    if labels.contains(segment) {
        acc + seq!['/'] + segment
    } else if segment.len() == 0 {
        acc
    } else {
        acc + seq!['/', '*']
    }
}

/// The label text for a list of path segments.
pub open spec fn sanitized(labels: Seq<Seq<char>>, segments: Seq<Seq<char>>) -> Seq<char>
    decreases segments.len(),
{
    if segments.len() == 0 {
        Seq::empty()
    } else {
        sanitize_step(sanitized(labels, segments.drop_last()), labels, segments.last())
    }
}

/// Whether `segment` is one of the known route names.
fn is_listed(include_path_labels: &Vec<String>, segment: &String) -> (r: bool)
    ensures
        r == label_views(include_path_labels@).contains(segment@),
{
    let ghost views = label_views(include_path_labels@);
    for j in 0..include_path_labels.len()
        invariant
            views == label_views(include_path_labels@),
            forall|t: int| 0 <= t < j ==> views[t] != segment@,
    {
        if include_path_labels[j] == *segment {
            assert(views[j as int] == segment@);
            return true;
        }
    }
    false
}

/// Appends the label text of one path segment.
fn push_segment(out: &mut String, include_path_labels: &Vec<String>, segment: &str)
    ensures
        final(out)@ == sanitize_step(old(out)@, label_views(include_path_labels@), segment@),
{
    let owned = String::from_str(segment);
    if is_listed(include_path_labels, &owned) {
        proof {
            reveal_strlit("/");
        }
        out.append("/");
        out.append(segment);
        assert(out@ =~= old(out)@ + seq!['/'] + segment@);
    } else if segment.unicode_len() != 0 {
        proof {
            reveal_strlit("/*");
        }
        out.append("/*");
        assert(out@ =~= old(out)@ + seq!['/', '*']);
    }
}

/// The metrics label of a request path: the segments between slashes, each
/// written as "/name" when it is one of `include_path_labels`, as "/*" when it
/// is any other non-empty text, and left out when empty. So with the names
/// "users" and "registration", "/users/12345/registration/9797731279" becomes
/// "/users/*/registration/*".
pub fn sanitize_path_segments(include_path_labels: &Vec<String>, path: &str) -> (r: String)
    ensures
        r@ == sanitized(label_views(include_path_labels@), split_on(path@, '/')),
{
    let ghost labels = label_views(include_path_labels@);
    let n = path.unicode_len();
    let mut out = String::new();
    let ghost mut done: Seq<Seq<char>> = Seq::empty();
    let mut start: usize = 0;
    proof {
        lemma_split_on_start(path@, '/');
    }
    for i in 0..n
        invariant
            n == path@.len(),
            start <= i,
            labels == label_views(include_path_labels@),
            split_on(path@.take(i as int), '/') == done.push(path@.subrange(start as int, i as int)),
            out@ == sanitized(labels, done),
    {
        proof {
            lemma_split_on_step(path@, '/', i as int, done, start as int);
        }
        if path.get_char(i) == '/' {
            let segment = path.substring_char(start, i);
            push_segment(&mut out, include_path_labels, segment);
            proof {
                assert(done.push(segment@).drop_last() =~= done);
                done = done.push(segment@);
            }
            start = i + 1;
        }
    }
    let segment = path.substring_char(start, n);
    push_segment(&mut out, include_path_labels, segment);
    proof {
        assert(path@.take(n as int) =~= path@);
        assert(done.push(segment@).drop_last() =~= done);
    }
    out
}

} // verus!
