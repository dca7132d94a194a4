//! Equality of Unix paths as `std::path::Path` compares them: by their
//! components, so that repeated separators, a trailing separator and `.`
//! segments inside the path do not matter.

use vstd::prelude::*;
use crate::order::bytes_equal;

verus! {

/// The byte `/`.
pub open spec fn slash() -> u8 {
    47
}

/// The one-byte segment `.`.
pub open spec fn dot_segment() -> Seq<u8> {
    seq![46u8]
}

/// The segments of `p` between its `/` separators, in order; there is
/// always at least one (possibly empty) segment.
pub open spec fn segments(p: Seq<u8>) -> Seq<Seq<u8>>
    decreases p.len(),
{
    if p.len() == 0 {
        seq![Seq::empty()]
    } else {
        let s = segments(p.drop_last());
        if p.last() == slash() {
            s.push(Seq::empty())
        } else {
            s.update(s.len() - 1, s.last().push(p.last()))
        }
    }
}

/// A path has at least one segment.
pub proof fn lemma_segments_nonempty(p: Seq<u8>)
    ensures
        segments(p).len() >= 1,
    decreases p.len(),
{
    if p.len() > 0 {
        lemma_segments_nonempty(p.drop_last());
    }
}

/// A segment that names something: not empty and not `.`.
pub open spec fn is_named(segment: Seq<u8>) -> bool {
    segment.len() > 0 && segment != dot_segment()
}

/// The named segments, in order.
pub open spec fn named(segments: Seq<Seq<u8>>) -> Seq<Seq<u8>>
    decreases segments.len(),
{
    if segments.len() == 0 {
        Seq::empty()
    } else if is_named(segments.last()) {
        named(segments.drop_last()).push(segments.last())
    } else {
        named(segments.drop_last())
    }
}

/// Whether `p` starts at the root directory.
pub open spec fn is_rooted(p: Seq<u8>) -> bool {
    p.len() > 0 && p[0] == slash()
}

/// Whether `p` is relative and starts with the segment `.`, which std keeps
/// as a leading current-directory component.
pub open spec fn starts_with_current_dir(p: Seq<u8>) -> bool {
    !is_rooted(p) && segments(p)[0] == dot_segment()
}

/// Whether two paths have the same components: the same root, the same
/// leading `.` and the same named segments.
pub open spec fn same_path(a: Seq<u8>, b: Seq<u8>) -> bool {
    &&& is_rooted(a) == is_rooted(b)
    &&& starts_with_current_dir(a) == starts_with_current_dir(b)
    &&& named(segments(a)) == named(segments(b))
}

/// The components of a path.
struct PathShape {
    rooted: bool,
    leading_dot: bool,
    names: Vec<Vec<u8>>,
}

/// Splits `p` into its components.
fn path_shape(p: &[u8]) -> (shape: PathShape)
    ensures
        shape.rooted == is_rooted(p@),
        shape.leading_dot == starts_with_current_dir(p@),
        shape.names.deep_view() == named(segments(p@)),
{
    let mut names: Vec<Vec<u8>> = Vec::new();
    let mut current: Vec<u8> = Vec::new();
    let mut first_is_dot = false;
    let mut seen_slash = false;
    let mut i: usize = 0;
    proof {
        assert(p@.take(0) =~= Seq::<u8>::empty());
    }
    while i < p.len()
        invariant
            i <= p@.len(),
            segments(p@.take(i as int)).len() >= 1,
            names.deep_view() == named(segments(p@.take(i as int)).drop_last()),
            current@ == segments(p@.take(i as int)).last(),
            !seen_slash ==> segments(p@.take(i as int)).len() == 1,
            seen_slash ==> segments(p@.take(i as int)).len() >= 2,
            seen_slash ==> first_is_dot == (segments(p@.take(i as int))[0] == dot_segment()),
        decreases p@.len() - i,
    {
        let b = p[i];
        let ghost before = segments(p@.take(i as int));
        proof {
            assert(p@.take(i + 1).drop_last() =~= p@.take(i as int));
            assert(p@.take(i + 1).last() == b);
        }
        if b == 47u8 {
            if !seen_slash {
                first_is_dot = current.len() == 1 && current[0] == 46u8;
                assert(first_is_dot == (current@ == dot_segment())) by {
                    if current@.len() == 1 && current@[0] == 46u8 {
                        assert(current@ =~= dot_segment());
                    }
                }
                seen_slash = true;
            }
            let named_segment = current.len() > 0 && !(current.len() == 1 && current[0] == 46u8);
            assert(named_segment == is_named(current@)) by {
                if current@.len() == 1 && current@[0] == 46u8 {
                    assert(current@ =~= dot_segment());
                }
            }
            let ghost names_before = names.deep_view();
            if named_segment {
                let finished = current;
                assert(finished.deep_view() =~= finished@);
                names.push(finished);
                assert(names.deep_view() =~= names_before.push(finished@));
            }
            current = Vec::new();
            proof {
                let after = segments(p@.take(i + 1));
                assert(after == before.push(Seq::empty()));
                assert(after[0] == before[0]);
                assert(after.drop_last() =~= before);
                assert(before =~= before.drop_last().push(before.last()));
            }
        } else {
            current.push(b);
            proof {
                let after = segments(p@.take(i + 1));
                assert(after == before.update(before.len() - 1, before.last().push(b)));
                if before.len() >= 2 {
                    assert(after[0] == before[0]);
                }
                assert(after.drop_last() =~= before.drop_last());
            }
        }
        i = i + 1;
    }
    proof {
        assert(p@.take(p@.len() as int) =~= p@);
    }
    let ghost segs = segments(p@);
    let named_segment = current.len() > 0 && !(current.len() == 1 && current[0] == 46u8);
    assert(named_segment == is_named(current@)) by {
        if current@.len() == 1 && current@[0] == 46u8 {
            assert(current@ =~= dot_segment());
        }
    }
    if !seen_slash {
        first_is_dot = current.len() == 1 && current[0] == 46u8;
        assert(first_is_dot == (current@ == dot_segment())) by {
            if current@.len() == 1 && current@[0] == 46u8 {
                assert(current@ =~= dot_segment());
            }
        }
    }
    let ghost names_before = names.deep_view();
    if named_segment {
        assert(current.deep_view() =~= current@);
        names.push(current);
        assert(names.deep_view() =~= names_before.push(segs.last()));
    }
    assert(segs =~= segs.drop_last().push(segs.last()));
    let rooted = p.len() > 0 && p[0] == 47u8;
    PathShape { rooted, leading_dot: !rooted && first_is_dot, names }
}

/// Whether two paths denote the same place by their components, as
/// `Path == Path` decides it.
pub fn paths_equal(a: &[u8], b: &[u8]) -> (r: bool)
    ensures
        r == same_path(a@, b@),
{
    let sa = path_shape(a);
    let sb = path_shape(b);
    if sa.rooted != sb.rooted || sa.leading_dot != sb.leading_dot {
        return false;
    }
    let ghost na = sa.names.deep_view();
    let ghost nb = sb.names.deep_view();
    assert(na.len() == sa.names@.len() && nb.len() == sb.names@.len());
    if sa.names.len() != sb.names.len() {
        return false;
    }
    let mut k: usize = 0;
    while k < sa.names.len()
        invariant
            k <= sa.names@.len(),
            sa.names@.len() == sb.names@.len(),
            na == sa.names.deep_view(),
            nb == sb.names.deep_view(),
            na == named(segments(a@)),
            nb == named(segments(b@)),
            forall|j: int| 0 <= j < k ==> na[j] == nb[j],
        decreases sa.names@.len() - k,
    {
        assert(na[k as int] == sa.names@[k as int]@);
        assert(nb[k as int] == sb.names@[k as int]@);
        if !bytes_equal(sa.names[k].as_slice(), sb.names[k].as_slice()) {
            assert(na[k as int] != nb[k as int]);
            return false;
        }
        k = k + 1;
    }
    assert(na =~= nb);
    true
}

} // verus!
