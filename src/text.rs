//! Splitting text into pieces at a separator character.
use vstd::prelude::*;

verus! {

/// The pieces of `s` between occurrences of `sep`, in order. A text without
/// the separator is one piece, and an empty text one empty piece.
pub open spec fn split_on(s: Seq<char>, sep: char) -> Seq<Seq<char>>
    decreases s.len(),
{
    if s.len() == 0 {
        seq![Seq::empty()]
    } else {
        let prev = split_on(s.drop_last(), sep);
        if s.last() == sep {
            prev.push(Seq::empty())
        } else {
            prev.update(prev.len() - 1, prev.last().push(s.last()))
        }
    }
}

/// Splitting never gives an empty list of pieces.
pub proof fn lemma_split_on_nonempty(s: Seq<char>, sep: char)
    ensures
        split_on(s, sep).len() >= 1,
    decreases s.len(),
{
    if s.len() > 0 {
        lemma_split_on_nonempty(s.drop_last(), sep);
    }
}

/// Splitting one character further: a separator closes the last piece and
/// opens an empty one; any other character extends the last piece.
pub proof fn lemma_split_on_step(s: Seq<char>, sep: char, i: int, done: Seq<Seq<char>>, start: int)
    requires
        0 <= start <= i < s.len(),
        split_on(s.take(i), sep) == done.push(s.subrange(start, i)),
    ensures
        s[i] == sep ==> split_on(s.take(i + 1), sep) == done.push(s.subrange(start, i)).push(
            s.subrange(i + 1, i + 1),
        ),
        s[i] != sep ==> split_on(s.take(i + 1), sep) == done.push(s.subrange(start, i + 1)),
{
    assert(s.take(i + 1).drop_last() =~= s.take(i));
    lemma_split_on_nonempty(s.take(i), sep);
    assert(s.subrange(i + 1, i + 1) =~= Seq::<char>::empty());
    assert(s.subrange(start, i + 1) =~= s.subrange(start, i).push(s[i]));
    if s[i] != sep {
        assert(split_on(s.take(i + 1), sep) =~= done.push(s.subrange(start, i + 1)));
    }
}

/// Before any character is read, there is one empty piece.
pub proof fn lemma_split_on_start(s: Seq<char>, sep: char)
    ensures
        split_on(s.take(0), sep) == Seq::<Seq<char>>::empty().push(s.subrange(0, 0)),
{
    assert(s.take(0) =~= Seq::<char>::empty());
    assert(s.subrange(0, 0) =~= Seq::<char>::empty());
    assert(Seq::<Seq<char>>::empty().push(s.subrange(0, 0)) =~= seq![Seq::<char>::empty()]);
}

} // verus!
