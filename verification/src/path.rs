//! The final component of a path, with the component rules of Unix paths:
//! components are separated by `/`, empty components and `.` components are
//! not components at all, and a final `..` names no file.

use vstd::prelude::*;

verus! {

/// The start of the trailing run of characters of `p` that are not `/`.
pub open spec fn segment_start(p: Seq<char>) -> int
    decreases p.len(),
{
    if p.len() == 0 {
        0
    } else if p.last() == '/' {
        p.len() as int
    } else {
        segment_start(p.drop_last())
    }
}

pub proof fn lemma_segment_start(p: Seq<char>)
    ensures
        0 <= segment_start(p) <= p.len(),
        segment_start(p) == 0 || p[segment_start(p) - 1] == '/',
        forall|i: int| segment_start(p) <= i < p.len() ==> p[i] != '/',
    decreases p.len(),
{
    if p.len() > 0 && p.last() != '/' {
        lemma_segment_start(p.drop_last());
        assert forall|i: int| segment_start(p) <= i < p.len() implies p[i] != '/' by {
            if i < p.len() - 1 {
                assert(p[i] == p.drop_last()[i]);
            }
        }
    }
}

/// The last component of `p` that is neither empty nor `.`, if any.
pub open spec fn last_component(p: Seq<char>) -> Option<Seq<char>>
    decreases p.len(),
{
    if p.len() == 0 {
        None
    } else if p.last() == '/' {
        last_component(p.drop_last())
    } else {
        let k = segment_start(p);
        proof {
            lemma_segment_start(p.drop_last());
        }
        if p.subrange(k, p.len() as int) == seq!['.'] {
            last_component(p.take(k))
        } else {
            Some(p.subrange(k, p.len() as int))
        }
    }
}

/// What `std::path::Path::file_name` gives on Unix: the last component,
/// unless there is none or it is `..`.
pub open spec fn file_name(p: Seq<char>) -> Option<Seq<char>> {
    match last_component(p) {
        Some(c) => if c == seq!['.', '.'] { None } else { Some(c) },
        None => None,
    }
}

/// The final component of `path`, as `Path::new(path).file_name()` gives it on Unix.
pub fn path_file_name(path: &str) -> (r: Option<String>)
    ensures
        r matches Some(f) ==> file_name(path@) == Some(f@),
        r is None ==> file_name(path@) is None,
{
    let v = crate::text::chars_of(path);
    let mut end = v.len();
    assert(v@.take(v@.len() as int) =~= v@);
    loop
        invariant
            end <= v.len(),
            v@ == path@,
            last_component(v@.take(end as int)) == last_component(v@),
        decreases end,
    {
        if end == 0 {
            assert(v@.take(0).len() == 0);
            assert(last_component(v@.take(0)) is None);
            return None;
        }
        if v[end - 1] == '/' {
            assert(v@.take(end as int).drop_last() =~= v@.take(end - 1));
            end = end - 1;
        } else {
            let ghost p = v@.take(end as int);
            let mut k = end - 1;
            while k > 0 && v[k - 1] != '/'
                invariant
                    k < end <= v.len(),
                    p == v@.take(end as int),
                    segment_start(p) == segment_start(v@.take(k + 1)),
                    p.last() != '/',
                    v@[k as int] != '/',
                decreases k,
            {
                assert(v@.take(k + 1).drop_last() =~= v@.take(k as int));
                assert(v@.take(k + 1).last() == v@[k as int]);
                assert(v@.take(k as int).drop_last() =~= v@.take(k - 1));
                assert(v@.take(k as int).last() == v@[k - 1]);
                k = k - 1;
            }
            proof {
                assert(v@.take(k + 1).last() == v@[k as int]);
                if k > 0 {
                    assert(v@.take(k + 1).drop_last() =~= v@.take(k as int));
                    assert(v@.take(k as int).last() == '/');
                    assert(segment_start(v@.take(k as int)) == k);
                    assert(segment_start(v@.take(k + 1)) == segment_start(v@.take(k as int)));
                } else {
                    assert(v@.take(1).drop_last().len() == 0);
                    assert(segment_start(v@.take(1).drop_last()) == 0);
                }
                assert(segment_start(v@.take(k + 1)) == k);
                assert(segment_start(p) == k);
            }
            if end - k == 1 && v[k] == '.' {
                assert(p.subrange(k as int, end as int) =~= seq!['.']);
                assert(p.take(k as int) =~= v@.take(k as int));
                end = k;
            } else {
                let seg = crate::text::string_from_range(&v, k, end);
                assert(p.subrange(k as int, end as int) =~= v@.subrange(k as int, end as int));
                assert(p.subrange(k as int, end as int) != seq!['.']) by {
                    if end - k == 1 {
                        assert(p.subrange(k as int, end as int)[0] == v@[k as int]);
                    }
                }
                assert(last_component(p) == Some(seg@));
                if end - k == 2 && v[k] == '.' && v[k + 1] == '.' {
                    assert(seg@ =~= seq!['.', '.']);
                    return None;
                }
                assert(seg@ != seq!['.', '.']) by {
                    if seg@.len() == 2 {
                        assert(seg@[0] == v@[k as int] && seg@[1] == v@[k + 1]);
                    }
                }
                return Some(seg);
            }
        }
    }
}

} // verus!
