use vstd::prelude::*;

verus! {

/// Appends one character to a `String` (std's `String::push`).
/// Claimed: the new contents are the old contents followed by `c`.
#[verifier::external_body]
pub(crate) fn string_push(s: &mut String, c: char)
    ensures
        final(s)@ == old(s)@.push(c),
{
    s.push(c);
}

/// The characters of `s`, in order.
pub fn chars_of(s: &str) -> (v: Vec<char>)
    ensures
        v@ == s@,
{
    let mut v: Vec<char> = Vec::new();
    for c in it: s.chars()
        invariant
            v@ == it.seq().take(it.index() as int),
    {
        v.push(c);
    }
    v
}

/// A `String` holding the characters `v[from..to]`.
pub fn string_from_range(v: &Vec<char>, from: usize, to: usize) -> (s: String)
    requires
        from <= to <= v.len(),
    ensures
        s@ == v@.subrange(from as int, to as int),
{
    let mut s = String::new();
    let mut i = from;
    while i < to
        invariant
            from <= i <= to <= v.len(),
            s@ == v@.subrange(from as int, i as int),
        decreases to - i,
    {
        string_push(&mut s, v[i]);
        i += 1;
    }
    s
}

} // verus!

verus! {

/// `s` ends with `suffix`.
pub open spec fn ends_with(s: Seq<char>, suffix: Seq<char>) -> bool {
    suffix.len() <= s.len() && s.subrange(s.len() - suffix.len(), s.len() as int) == suffix
}

/// Whether `v[..end]` ends with `suffix`.
pub fn prefix_ends_with(v: &Vec<char>, end: usize, suffix: &Vec<char>) -> (b: bool)
    requires
        end <= v.len(),
    ensures
        b == ends_with(v@.take(end as int), suffix@),
{
    if suffix.len() > end {
        return false;
    }
    let start = end - suffix.len();
    let mut i: usize = 0;
    while i < suffix.len()
        invariant
            start + suffix.len() == end <= v.len(),
            0 <= i <= suffix.len(),
            forall|j: int| 0 <= j < i ==> v@[start + j] == suffix@[j],
        decreases suffix.len() - i,
    {
        if v[start + i] != suffix[i] {
            assert(v@.take(end as int).subrange(start as int, end as int)[i as int] != suffix@[i as int]);
            return false;
        }
        i += 1;
    }
    assert(v@.take(end as int).subrange(start as int, end as int) =~= suffix@);
    true
}

/// Whether two character vectors hold the same characters.
pub fn chars_equal(a: &Vec<char>, a_len: usize, b: &Vec<char>) -> (r: bool)
    requires
        a_len <= a.len(),
    ensures
        r == (a@.take(a_len as int) == b@),
{
    if a_len != b.len() {
        assert(a@.take(a_len as int).len() != b@.len());
        return false;
    }
    let mut i: usize = 0;
    while i < a_len
        invariant
            a_len == b.len() <= a.len(),
            0 <= i <= a_len,
            forall|j: int| 0 <= j < i ==> a@[j] == b@[j],
        decreases a_len - i,
    {
        if a[i] != b[i] {
            assert(a@.take(a_len as int)[i as int] != b@[i as int]);
            return false;
        }
        i += 1;
    }
    assert(a@.take(a_len as int) =~= b@);
    true
}

} // verus!
