use vstd::prelude::*;

use crate::errors::ReconcileError;

verus! {

use vstd::string::StrSliceExecFns;
use vstd::string::StringExecFns;

/// The segments of `s` as cut at every occurrence of `sep`: the empty
/// sequence splits into one empty segment, and each further character either
/// extends the last segment or, when it equals `sep`, opens a new empty one.
pub open spec fn split_on(s: Seq<char>, sep: char) -> Seq<Seq<char>>
    decreases s.len(),
{
    if s.len() == 0 {
        seq![Seq::<char>::empty()]
    } else if s.last() == sep {
        split_on(s.drop_last(), sep).push(Seq::<char>::empty())
    } else {
        let prev = split_on(s.drop_last(), sep);
        prev.update(prev.len() - 1, prev.last().push(s.last()))
    }
}

/// Splitting never yields an empty list of segments.
pub proof fn lemma_split_on_nonempty(s: Seq<char>, sep: char)
    ensures
        split_on(s, sep).len() >= 1,
    decreases s.len(),
{
    if s.len() > 0 {
        lemma_split_on_nonempty(s.drop_last(), sep);
    }
}

/// A string splits into two or more segments exactly when the separator
/// occurs in it.
pub proof fn lemma_split_on_contains(s: Seq<char>, sep: char)
    ensures
        split_on(s, sep).len() >= 2 <==> s.contains(sep),
    decreases s.len(),
{
    if s.len() == 0 {
    } else {
        lemma_split_on_contains(s.drop_last(), sep);
        lemma_split_on_nonempty(s.drop_last(), sep);
        if s.last() == sep {
            assert(s[s.len() - 1] == sep);
            assert(s.contains(sep));
        } else {
            if s.drop_last().contains(sep) {
                let i = choose|i: int| 0 <= i < s.drop_last().len() && s.drop_last()[i] == sep;
                assert(s[i] == sep);
                assert(s.contains(sep));
            }
            if s.contains(sep) {
                let i = choose|i: int| 0 <= i < s.len() && s[i] == sep;
                assert(i < s.len() - 1);
                assert(s.drop_last()[i] == sep);
                assert(s.drop_last().contains(sep));
            }
        }
    }
}

/// A string free of the separator splits into itself alone.
pub proof fn lemma_split_on_no_sep(s: Seq<char>, sep: char)
    requires
        !s.contains(sep),
    ensures
        split_on(s, sep) == seq![s],
    decreases s.len(),
{
    if s.len() == 0 {
        assert(seq![Seq::<char>::empty()] =~~= seq![s]);
    } else {
        if s.last() == sep {
            assert(s[s.len() - 1] == sep);
            assert(s.contains(sep));
        }
        if s.drop_last().contains(sep) {
            let i = choose|i: int| 0 <= i < s.drop_last().len() && s.drop_last()[i] == sep;
            assert(s[i] == sep);
            assert(s.contains(sep));
        }
        lemma_split_on_no_sep(s.drop_last(), sep);
        assert(s.drop_last().push(s.last()) =~= s);
        assert(split_on(s, sep) =~~= seq![s]);
    }
}

/// Splitting distributes over concatenation at a separator: the segments of
/// `a` followed by `sep` followed by `b` are the segments of `a` followed by
/// the segments of `b`.
pub proof fn lemma_split_on_append(a: Seq<char>, b: Seq<char>, sep: char)
    ensures
        split_on(a.push(sep) + b, sep) == split_on(a, sep) + split_on(b, sep),
    decreases b.len(),
{
    if b.len() == 0 {
        assert(a.push(sep) + b =~= a.push(sep));
        assert(a.push(sep).drop_last() =~= a);
        assert(a.push(sep).last() == sep);
        assert(split_on(a, sep).push(Seq::<char>::empty()) =~~= split_on(a, sep) + seq![
            Seq::<char>::empty(),
        ]);
    } else {
        lemma_split_on_append(a, b.drop_last(), sep);
        lemma_split_on_nonempty(b.drop_last(), sep);
        lemma_split_on_nonempty(a, sep);
        let s = a.push(sep) + b;
        assert(s.last() == b.last());
        assert(s.drop_last() =~= a.push(sep) + b.drop_last());
        if b.last() == sep {
            assert((split_on(a, sep) + split_on(b.drop_last(), sep)).push(Seq::<char>::empty())
                =~~= split_on(a, sep) + split_on(b.drop_last(), sep).push(Seq::<char>::empty()));
            assert(split_on(s, sep) == split_on(a, sep) + split_on(b, sep));
        } else {
            let joined = split_on(a, sep) + split_on(b.drop_last(), sep);
            let inner = split_on(b.drop_last(), sep);
            assert(joined.last() == inner.last());
            assert(joined.update(joined.len() - 1, joined.last().push(b.last())) =~~= split_on(
                a,
                sep,
            ) + inner.update(inner.len() - 1, inner.last().push(b.last())));
            assert(split_on(s, sep) == split_on(a, sep) + split_on(b, sep));
        }
    }
}

proof fn lemma_concat_contains(a: Seq<char>, b: Seq<char>, c: char)
    ensures
        (a + b).contains(c) <==> a.contains(c) || b.contains(c),
{
    if (a + b).contains(c) {
        let i = choose|i: int| 0 <= i < (a + b).len() && (a + b)[i] == c;
        if i < a.len() {
            assert(a[i] == c);
        } else {
            assert(b[i - a.len()] == c);
        }
    }
    if a.contains(c) {
        let i = choose|i: int| 0 <= i < a.len() && a[i] == c;
        assert((a + b)[i] == c);
    }
    if b.contains(c) {
        let i = choose|i: int| 0 <= i < b.len() && b[i] == c;
        assert((a + b)[a.len() + i] == c);
    }
}

/// The slash-separated segments of an object key.
pub open spec fn path_segments(key: Seq<char>) -> Seq<Seq<char>> {
    split_on(key, '/')
}

/// A key is well formed when it has at least two slash-separated segments and
/// its last segment carries a `.` extension separator.
pub open spec fn path_well_formed(key: Seq<char>) -> bool {
    path_segments(key).len() >= 2 && path_segments(key).last().contains('.')
}

/// The parent entity name: the second-to-last slash-separated segment.
pub open spec fn parent_of(key: Seq<char>) -> Seq<char> {
    path_segments(key)[path_segments(key).len() - 2]
}

/// The child entity name: the portion of the last slash-separated segment
/// that stands before its first `.`.
pub open spec fn child_of(key: Seq<char>) -> Seq<char> {
    split_on(path_segments(key).last(), '.')[0]
}

/// Cuts `s` at every occurrence of `sep` and returns the segments in order.
pub fn split_str(s: &str, sep: char) -> (segments: Vec<String>)
    ensures
        segments.deep_view() == split_on(s@, sep),
{
    let n: usize = s.unicode_len();
    let mut segments: Vec<String> = Vec::new();
    let mut start: usize = 0;
    let mut i: usize = 0;
    while i < n
        invariant
            start <= i <= n,
            n == s@.len(),
            segments.deep_view().push(s@.subrange(start as int, i as int))
                =~~= split_on(s@.subrange(0, i as int), sep),
        decreases n - i,
    {
        let ghost prefix = s@.subrange(0, i as int);
        let ghost prev_deep = segments.deep_view();
        let c = s.get_char(i);
        if c == sep {
            let segment = s.substring_char(start, i).to_owned();
            segments.push(segment);
            proof {
                assert(segments.deep_view() =~~= prev_deep.push(s@.subrange(
                    start as int,
                    i as int,
                )));
            }
            start = i + 1;
        }
        i = i + 1;
        proof {
            let extended = s@.subrange(0, i as int);
            assert(extended.drop_last() =~= prefix);
            assert(extended.last() == s@[i - 1]);
            assert(segments.deep_view().push(s@.subrange(start as int, i as int))
                =~~= split_on(extended, sep));
        }
    }
    let last_segment = s.substring_char(start, n).to_owned();
    let ghost prev_deep = segments.deep_view();
    segments.push(last_segment);
    proof {
        assert(s@.subrange(0, n as int) =~= s@);
        assert(segments.deep_view() =~~= prev_deep.push(s@.subrange(start as int, n as int)));
        assert(segments.deep_view() =~~= split_on(s@, sep));
    }
    segments
}

/// Derives the record identity from an object key: the parent name is the
/// second-to-last slash-separated segment, the child name is the last
/// segment's portion before its first `.`. A key with fewer than two
/// segments, or whose last segment has no `.`, is rejected as malformed.
pub fn extract_names(object_key: &str) -> (result: Result<(String, String), ReconcileError>)
    ensures
        match result {
            Ok(names) => path_well_formed(object_key@) && names.0@ == parent_of(object_key@)
                && names.1@ == child_of(object_key@),
            Err(e) => !path_well_formed(object_key@) && e == ReconcileError::MalformedPath,
        },
{
    let segments = split_str(object_key, '/');
    if segments.len() < 2 {
        return Err(ReconcileError::MalformedPath);
    }
    let last_index = segments.len() - 1;
    let dotted = split_str(segments[last_index].as_str(), '.');
    proof {
        lemma_split_on_contains(segments@[last_index as int]@, '.');
    }
    if dotted.len() < 2 {
        return Err(ReconcileError::MalformedPath);
    }
    let parent_name = segments[last_index - 1].clone();
    let child_name = dotted[0].clone();
    Ok((parent_name, child_name))
}

/// Every key of the shape `<prefix>/<child>.<ext>`, with `child` free of
/// slashes and dots and `ext` free of slashes, is well formed: its parent
/// name is the last slash-separated segment of `prefix` and its child name
/// is `child`.
pub proof fn lemma_parse_shape(prefix: Seq<char>, child: Seq<char>, ext: Seq<char>)
    requires
        !child.contains('/'),
        !child.contains('.'),
        !ext.contains('/'),
    ensures
        path_well_formed(prefix + seq!['/'] + child + seq!['.'] + ext),
        parent_of(prefix + seq!['/'] + child + seq!['.'] + ext) == split_on(prefix, '/').last(),
        child_of(prefix + seq!['/'] + child + seq!['.'] + ext) == child,
{
    let path = prefix + seq!['/'] + child + seq!['.'] + ext;
    let last_segment = child.push('.') + ext;
    assert(path =~= prefix.push('/') + last_segment);

    lemma_concat_contains(child, seq!['.'], '/');
    assert(!seq!['.'].contains('/')) by {
        assert(forall|i: int| 0 <= i < seq!['.'].len() ==> seq!['.'][i] == '.');
    }
    assert(child.push('.') =~= child + seq!['.']);
    lemma_concat_contains(child.push('.'), ext, '/');
    assert(!last_segment.contains('/'));
    assert(last_segment[child.len() as int] == '.');
    assert(last_segment.contains('.'));

    lemma_split_on_append(prefix, last_segment, '/');
    lemma_split_on_no_sep(last_segment, '/');
    lemma_split_on_nonempty(prefix, '/');
    let segments = path_segments(path);
    assert(segments == split_on(prefix, '/') + seq![last_segment]);
    assert(segments.last() == last_segment);
    assert(segments[segments.len() - 2] == split_on(prefix, '/').last());

    lemma_split_on_append(child, ext, '.');
    lemma_split_on_no_sep(child, '.');
    assert(split_on(last_segment, '.') == seq![child] + split_on(ext, '.'));
    assert(split_on(last_segment, '.')[0] == child);
}

/// The two-segment case of the shape law: a key `<parent>/<child>.<ext>`
/// whose parent is also free of slashes parses to exactly that parent and
/// child pair.
pub proof fn lemma_parse_two_segments(parent: Seq<char>, child: Seq<char>, ext: Seq<char>)
    requires
        !parent.contains('/'),
        !child.contains('/'),
        !child.contains('.'),
        !ext.contains('/'),
    ensures
        path_well_formed(parent + seq!['/'] + child + seq!['.'] + ext),
        parent_of(parent + seq!['/'] + child + seq!['.'] + ext) == parent,
        child_of(parent + seq!['/'] + child + seq!['.'] + ext) == child,
{
    lemma_parse_shape(parent, child, ext);
    lemma_split_on_no_sep(parent, '/');
}

} // verus!
