//! Hierarchical bone paths written as `'/'`-separated names.
use vstd::prelude::*;

verus! {

/// The separator between the segments of a written bone path.
pub const PATH_SEPARATOR: char = '/';

/// The segments of `s` split at every `sep`, read left to right: the last
/// segment is the one still open after the final character.
pub open spec fn split_on(s: Seq<char>, sep: char) -> Seq<Seq<char>>
    decreases s.len(),
{
    if s.len() == 0 {
        seq![Seq::<char>::empty()]
    } else {
        let before = split_on(s.drop_last(), sep);
        if s.last() == sep {
            before.push(Seq::<char>::empty())
        } else {
            before.update(before.len() - 1, before.last().push(s.last()))
        }
    }
}

/// A split always yields at least one segment.
pub proof fn lemma_split_nonempty(s: Seq<char>, sep: char)
    ensures
        split_on(s, sep).len() >= 1,
    decreases s.len(),
{
    if s.len() > 0 {
        lemma_split_nonempty(s.drop_last(), sep);
    }
}

/// The views of a list of strings.
pub open spec fn names_view(v: Seq<String>) -> Seq<Seq<char>> {
    v.map_values(|x: String| x@)
}

/// Appending a string appends its view.
pub proof fn lemma_names_view_push(v: Seq<String>, x: String)
    ensures
        names_view(v.push(x)) == names_view(v).push(x@),
{
    assert(names_view(v.push(x)) =~= names_view(v).push(x@));
}

/// Splits a written path such as `"Body/Right Arm Upper"` into its segments.
pub fn split_path(path: &str) -> (segments: Vec<String>)
    ensures
        names_view(segments@) == split_on(path@, PATH_SEPARATOR),
{
    let n = path.unicode_len();
    let mut segments: Vec<String> = Vec::new();
    let mut start: usize = 0;
    let mut i: usize = 0;
    proof {
        assert(path@.take(0) =~= Seq::<char>::empty());
        assert(names_view(segments@) =~= Seq::<Seq<char>>::empty());
        assert(path@.subrange(0, 0) =~= Seq::<char>::empty());
        assert(split_on(Seq::<char>::empty(), PATH_SEPARATOR) == seq![Seq::<char>::empty()]);
        assert(names_view(segments@).push(path@.subrange(0, 0)) =~= seq![Seq::<char>::empty()]);
    }
    while i < n
        invariant
            n == path@.len(),
            start <= i <= n,
            names_view(segments@).push(path@.subrange(start as int, i as int)) == split_on(
                path@.take(i as int),
                PATH_SEPARATOR,
            ),
        decreases n - i,
    {
        let c = path.get_char(i);
        let ghost before = path@.take(i as int);
        proof {
            assert(path@.take(i + 1).drop_last() == before);
            assert(path@.take(i + 1).last() == c);
            lemma_split_nonempty(before, PATH_SEPARATOR);
        }
        if c == PATH_SEPARATOR {
            let piece = path.substring_char(start, i).to_owned();
            segments.push(piece);
            start = i + 1;
            proof {
                assert(path@.subrange(start as int, i + 1) == Seq::<char>::empty());
                assert(names_view(segments@) =~= names_view(segments@).drop_last().push(piece@));
            }
        } else {
            proof {
                assert(path@.subrange(start as int, i + 1) == path@.subrange(
                    start as int,
                    i as int,
                ).push(c));
            }
        }
        i = i + 1;
        assert(names_view(segments@).push(path@.subrange(start as int, i as int)) =~= split_on(
            path@.take(i as int),
            PATH_SEPARATOR,
        ));
    }
    let last = path.substring_char(start, n).to_owned();
    segments.push(last);
    proof {
        assert(path@.take(n as int) == path@);
        assert(names_view(segments@) =~= names_view(segments@).drop_last().push(last@));
    }
    segments
}

} // verus!
