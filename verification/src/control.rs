//! Control comments switch a rule off and on inside a source file:
//! `/* svlint off rule_name */` and `/* svlint on rule_name */`.
//!
//! Their grammar: `/*`, any white space, `svlint`, some white space, `on` or
//! `off`, some white space, a rule name of lower-case letters, digits and `_`,
//! any white space, `*/`. A comment whose text holds such a piece anywhere is a
//! control comment; the leftmost piece counts.

use vstd::prelude::*;
use crate::text::{chars_of, string_from_range};

verus! {

/// A character with the Unicode property `White_Space`.
pub open spec fn is_white_space(c: char) -> bool {
    let n = c as u32;
    ||| 0x09 <= n <= 0x0d
    ||| n == 0x20
    ||| n == 0x85
    ||| n == 0xa0
    ||| n == 0x1680
    ||| 0x2000 <= n <= 0x200a
    ||| n == 0x2028
    ||| n == 0x2029
    ||| n == 0x202f
    ||| n == 0x205f
    ||| n == 0x3000
}

/// A character that may stand in a rule name: `a`-`z`, `0`-`9` or `_`.
pub open spec fn is_name_char(c: char) -> bool {
    ('a' <= c && c <= 'z') || ('0' <= c && c <= '9') || c == '_'
}

/// The end of the run of white space in `s` that starts at `j`.
pub open spec fn skip_white(s: Seq<char>, j: int) -> int
    decreases s.len() - j,
{
    if 0 <= j < s.len() && is_white_space(s[j]) {
        skip_white(s, j + 1)
    } else {
        j
    }
}

/// The end of the run of rule-name characters in `s` that starts at `j`.
pub open spec fn skip_name(s: Seq<char>, j: int) -> int
    decreases s.len() - j,
{
    if 0 <= j < s.len() && is_name_char(s[j]) {
        skip_name(s, j + 1)
    } else {
        j
    }
}

/// `lit` stands in `s` at `j`.
pub open spec fn has_at(s: Seq<char>, j: int, lit: Seq<char>) -> bool {
    0 <= j && j + lit.len() <= s.len() && s.subrange(j, j + lit.len()) == lit
}

pub open spec fn open_mark() -> Seq<char> {
    seq!['/', '*']
}

pub open spec fn close_mark() -> Seq<char> {
    seq!['*', '/']
}

pub open spec fn keyword() -> Seq<char> {
    seq!['s', 'v', 'l', 'i', 'n', 't']
}

pub open spec fn on_word() -> Seq<char> {
    seq!['o', 'n']
}

pub open spec fn off_word() -> Seq<char> {
    seq!['o', 'f', 'f']
}

/// The rest of a control comment, from the rule name on: the name and the
/// closing mark.
pub open spec fn control_tail(s: Seq<char>, j4: int, enable: bool) -> Option<(bool, Seq<char>)> {
    let j5 = skip_white(s, j4);
    let j6 = skip_name(s, j5);
    let j7 = skip_white(s, j6);
    if j5 > j4 && j6 > j5 && has_at(s, j7, close_mark()) {
        Some((enable, s.subrange(j5, j6)))
    } else {
        None
    }
}

/// The control comment that starts at `i` in `s`, if one does: whether it
/// switches on, and the rule name.
pub open spec fn control_at(s: Seq<char>, i: int) -> Option<(bool, Seq<char>)> {
    let j1 = skip_white(s, i + 2);
    let j2 = j1 + 6;
    let j3 = skip_white(s, j2);
    if !has_at(s, i, open_mark()) || !has_at(s, j1, keyword()) || j3 == j2 {
        None
    } else if has_at(s, j3, on_word()) {
        control_tail(s, j3 + 2, true)
    } else if has_at(s, j3, off_word()) {
        control_tail(s, j3 + 3, false)
    } else {
        None
    }
}

/// The leftmost control comment in `s` at or after `i`.
pub open spec fn control_from(s: Seq<char>, i: int) -> Option<(bool, Seq<char>)>
    decreases s.len() - i,
{
    if 0 <= i < s.len() {
        match control_at(s, i) {
            Some(r) => Some(r),
            None => control_from(s, i + 1),
        }
    } else {
        None
    }
}

/// The leftmost control comment in `s`.
pub open spec fn control_in(s: Seq<char>) -> Option<(bool, Seq<char>)> {
    control_from(s, 0)
}

/// A control comment: whether it switches the rule on, and the rule's name.
#[derive(Debug)]
pub struct ControlComment {
    pub enable: bool,
    pub rule: String,
}

fn white_space(c: char) -> (r: bool)
    ensures
        r == is_white_space(c),
{
    let n = c as u32;
    (0x09 <= n && n <= 0x0d) || n == 0x20 || n == 0x85 || n == 0xa0 || n == 0x1680 || (0x2000 <= n
        && n <= 0x200a) || n == 0x2028 || n == 0x2029 || n == 0x202f || n == 0x205f || n == 0x3000
}

fn name_char(c: char) -> (r: bool)
    ensures
        r == is_name_char(c),
{
    ('a' <= c && c <= 'z') || ('0' <= c && c <= '9') || c == '_'
}

fn skip_white_at(v: &Vec<char>, j: usize) -> (r: usize)
    requires
        j <= v.len(),
    ensures
        r == skip_white(v@, j as int),
        j <= r <= v.len(),
{
    let mut k = j;
    while k < v.len() && white_space(v[k])
        invariant
            j <= k <= v.len(),
            skip_white(v@, j as int) == skip_white(v@, k as int),
        decreases v.len() - k,
    {
        k += 1;
    }
    k
}

fn skip_name_at(v: &Vec<char>, j: usize) -> (r: usize)
    requires
        j <= v.len(),
    ensures
        r == skip_name(v@, j as int),
        j <= r <= v.len(),
{
    let mut k = j;
    while k < v.len() && name_char(v[k])
        invariant
            j <= k <= v.len(),
            skip_name(v@, j as int) == skip_name(v@, k as int),
        decreases v.len() - k,
    {
        k += 1;
    }
    k
}

fn literal_at(v: &Vec<char>, j: usize, lit: &Vec<char>) -> (r: bool)
    ensures
        r == has_at(v@, j as int, lit@),
{
    if j > v.len() || lit.len() > v.len() - j {
        return false;
    }
    let mut i: usize = 0;
    while i < lit.len()
        invariant
            j + lit.len() <= v.len(),
            0 <= i <= lit.len(),
            forall|k: int| 0 <= k < i ==> v@[j + k] == lit@[k],
        decreases lit.len() - i,
    {
        if v[j + i] != lit[i] {
            assert(v@.subrange(j as int, j + lit.len())[i as int] != lit@[i as int]);
            return false;
        }
        i += 1;
    }
    assert(v@.subrange(j as int, j + lit.len()) =~= lit@);
    true
}

fn control_tail_at(v: &Vec<char>, j4: usize, enable: bool) -> (r: Option<ControlComment>)
    requires
        j4 <= v.len(),
    ensures
        r matches Some(c) ==> control_tail(v@, j4 as int, enable) == Some((c.enable, c.rule@)),
        r is None ==> control_tail(v@, j4 as int, enable) is None,
{
    let j5 = skip_white_at(v, j4);
    let j6 = skip_name_at(v, j5);
    let j7 = skip_white_at(v, j6);
    let close = vec!['*', '/'];
    assert(close@ == close_mark());
    if j5 > j4 && j6 > j5 && literal_at(v, j7, &close) {
        Some(ControlComment { enable, rule: string_from_range(v, j5, j6) })
    } else {
        None
    }
}

fn control_at_index(v: &Vec<char>, i: usize) -> (r: Option<ControlComment>)
    requires
        i < v.len(),
    ensures
        r matches Some(c) ==> control_at(v@, i as int) == Some((c.enable, c.rule@)),
        r is None ==> control_at(v@, i as int) is None,
{
    let open = vec!['/', '*'];
    assert(open@ == open_mark());
    if !literal_at(v, i, &open) {
        return None;
    }
    let j1 = skip_white_at(v, i + 2);
    let kw = vec!['s', 'v', 'l', 'i', 'n', 't'];
    assert(kw@ == keyword());
    if !literal_at(v, j1, &kw) {
        return None;
    }
    let j2 = j1 + 6;
    let j3 = skip_white_at(v, j2);
    if j3 == j2 {
        return None;
    }
    let on = vec!['o', 'n'];
    assert(on@ == on_word());
    let off = vec!['o', 'f', 'f'];
    assert(off@ == off_word());
    if literal_at(v, j3, &on) {
        control_tail_at(v, j3 + 2, true)
    } else if literal_at(v, j3, &off) {
        control_tail_at(v, j3 + 3, false)
    } else {
        None
    }
}

/// The leftmost control comment in `text`, if it holds one.
pub fn control_comment(text: &str) -> (r: Option<ControlComment>)
    ensures
        r matches Some(c) ==> control_in(text@) == Some((c.enable, c.rule@)),
        r is None ==> control_in(text@) is None,
{
    let v = chars_of(text);
    let mut i: usize = 0;
    while i < v.len()
        invariant
            0 <= i <= v.len(),
            v@ == text@,
            control_in(v@) == control_from(v@, i as int),
        decreases v.len() - i,
    {
        let found = control_at_index(&v, i);
        if found.is_some() {
            return found;
        }
        i += 1;
    }
    None
}

} // verus!

verus! {

/// The control comment `/* svlint on name */` or `/* svlint off name */`.
pub open spec fn control_text(enable: bool, name: Seq<char>) -> Seq<char> {
    open_mark() + seq![' '] + keyword() + seq![' '] + (if enable { on_word() } else { off_word() }) + seq![
        ' ',
    ] + name + seq![' '] + close_mark()
}

proof fn lemma_skip_name_run(s: Seq<char>, j: int, k: int)
    requires
        0 <= j <= k <= s.len(),
        forall|i: int| j <= i < k ==> is_name_char(#[trigger] s[i]),
        k == s.len() || !is_name_char(s[k]),
    ensures
        skip_name(s, j) == k,
    decreases k - j,
{
    if j < k {
        lemma_skip_name_run(s, j + 1, k);
    }
}

/// Writing a control comment and reading it back gives the same switch and
/// rule name, for every rule name.
pub proof fn law_control_comment_round_trip(enable: bool, name: Seq<char>)
    requires
        name.len() > 0,
        forall|i: int| 0 <= i < name.len() ==> is_name_char(#[trigger] name[i]),
    ensures
        control_in(control_text(enable, name)) == Some((enable, name)),
{
    let word = if enable { on_word() } else { off_word() };
    let s = control_text(enable, name);
    let w = word.len() as int;
    let n = name.len() as int;
    let j4 = 10 + w;
    let j5 = j4 + 1;
    let j6 = j5 + n;
    assert(s.len() == j6 + 3);
    assert(s.subrange(0, 2) =~= open_mark());
    assert(s[2] == ' ');
    assert(s[3] == 's');
    assert(skip_white(s, 3) == 3);
    assert(skip_white(s, 2) == 3);
    assert(s.subrange(3, 9) =~= keyword());
    assert(s[9] == ' ');
    assert(s[10] == 'o');
    assert(skip_white(s, 10) == 10);
    assert(skip_white(s, 9) == 10);
    assert(s.subrange(10, 10 + w) =~= word);
    if !enable {
        assert(s.subrange(10, 12)[1] == 'f');
        assert(!has_at(s, 10, on_word()));
    }
    assert(s[j4] == ' ');
    assert forall|i: int| j5 <= i < j6 implies is_name_char(#[trigger] s[i]) by {
        assert(s[i] == name[i - j5]);
    }
    assert(s[j6] == ' ');
    lemma_skip_name_run(s, j5, j6);
    assert(s[j5] == name[0]);
    assert(skip_white(s, j5) == j5);
    assert(skip_white(s, j4) == j5);
    assert(s[j6 + 1] == '*');
    assert(skip_white(s, j6 + 1) == j6 + 1);
    assert(skip_white(s, j6) == j6 + 1);
    assert(s.subrange(j6 + 1, j6 + 3) =~= close_mark());
    assert(s.subrange(j5, j6) =~= name);
    assert(control_at(s, 0) == Some((enable, name)));
}

} // verus!
