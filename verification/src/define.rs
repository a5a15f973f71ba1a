//! Macro definitions given on the command line (`NAME` or `NAME=TEXT`) and in
//! file lists, gathered into one table in which a later definition of a name
//! replaces an earlier one.

use vstd::prelude::*;
use crate::text::{chars_of, string_from_range};

verus! {

/// Why an escaped text could not be read (the cases of `enquote::Error`).
#[derive(Clone, Copy, Debug, PartialEq, Eq, Structural)]
pub enum UnescapeError {
    NotEnoughChars,
    UnrecognizedQuote,
    UnexpectedEOF,
    IllegalChar,
    UnrecognizedEscape,
    InvalidUnicode,
}

/// What `enquote::unescape(s, illegal)` returns for `s` and `illegal`.
pub uninterp spec fn unescape_result(s: Seq<char>, illegal: Option<char>) -> Result<Seq<char>, UnescapeError>;

/// Calls `enquote::unescape`, which replaces escapes such as `\n` and `\x00` in
/// `s` by the characters they stand for and fails on an escape it does not know
/// or on the character `illegal`. Claimed: the result is `unescape_result` of the
/// arguments; a text with neither a backslash nor the illegal character comes
/// back unchanged (the function copies every other character as it is); and a
/// text whose escapes are all of the one-character kind (`\\`, `\"`, `\'`,
/// `` \` ``, `\a`, `\b`, `\f`, `\n`, `\r`, `\t`, `\v`) and that holds the illegal
/// character nowhere outside an escape comes back with each escape replaced by
/// its character (`simple_unescape`). What octal, hex and unicode escapes
/// become, and which error an escape that fails gives, is left unsaid here.
#[verifier::external_body]
fn unescape(s: &str, illegal: Option<char>) -> (r: Result<String, UnescapeError>)
    ensures
        r matches Ok(v) ==> (unescape_result(s@, illegal) matches Ok(u) && u == v@),
        r matches Err(e) ==> (unescape_result(s@, illegal) matches Err(f) && f == e),
        plain_text(s@, illegal) ==> r is Ok && r->Ok_0@ == s@,
        simple_unescape(s@, illegal) is Some ==> r is Ok && r->Ok_0@ == simple_unescape(s@, illegal)->0,
{
    match enquote::unescape(s, illegal) {
        Ok(v) => Ok(v),
        Err(enquote::Error::NotEnoughChars) => Err(UnescapeError::NotEnoughChars),
        Err(enquote::Error::UnrecognizedQuote) => Err(UnescapeError::UnrecognizedQuote),
        Err(enquote::Error::UnexpectedEOF) => Err(UnescapeError::UnexpectedEOF),
        Err(enquote::Error::IllegalChar) => Err(UnescapeError::IllegalChar),
        Err(enquote::Error::UnrecognizedEscape) => Err(UnescapeError::UnrecognizedEscape),
        Err(enquote::Error::InvalidUnicode) => Err(UnescapeError::InvalidUnicode),
    }
}

/// The character that a backslash followed by `c` stands for, for the escapes
/// made of one character after the backslash.
pub open spec fn simple_escape(c: char) -> Option<char> {
    if c == '\\' || c == '"' || c == '\'' || c == '`' {
        Some(c)
    } else if c == 'a' {
        Some('\x07')
    } else if c == 'b' {
        Some('\x08')
    } else if c == 'f' {
        Some('\x0c')
    } else if c == 'n' {
        Some('\n')
    } else if c == 'r' {
        Some('\r')
    } else if c == 't' {
        Some('\t')
    } else if c == 'v' {
        Some('\x0b')
    } else {
        None
    }
}

/// `s` with each escape replaced by its character, when every escape in `s` is
/// made of one character after the backslash and the character `illegal` stands
/// nowhere outside an escape; `None` for any other text.
pub open spec fn simple_unescape(s: Seq<char>, illegal: Option<char>) -> Option<Seq<char>>
    decreases s.len(),
{
    if s.len() == 0 {
        Some(seq![])
    } else if Some(s[0]) == illegal {
        None
    } else if s[0] == '\\' {
        if s.len() >= 2 && simple_escape(s[1]) is Some {
            match simple_unescape(s.skip(2), illegal) {
                Some(t) => Some(seq![simple_escape(s[1])->0] + t),
                None => None,
            }
        } else {
            None
        }
    } else {
        match simple_unescape(s.skip(1), illegal) {
            Some(t) => Some(seq![s[0]] + t),
            None => None,
        }
    }
}

/// `s` holds neither a backslash nor the character `illegal`.
pub open spec fn plain_text(s: Seq<char>, illegal: Option<char>) -> bool {
    forall|i: int| 0 <= i < s.len() ==> s[i] != '\\' && Some(s[i]) != illegal
}

pub open spec fn opt_view(o: Option<String>) -> Option<Seq<char>> {
    match o {
        Some(s) => Some(s@),
        None => None,
    }
}

/// `NAME=TEXT` split at its first `=`: the name, and the text after the `=` if
/// there is one.
pub open spec fn define_parts(s: Seq<char>) -> (Seq<char>, Option<Seq<char>>) {
    match s.index_of_first('=') {
        Some(i) => (s.take(i), Some(s.skip(i + 1))),
        None => (s, None),
    }
}

/// A command-line definition read: its name, and its text with escapes replaced.
pub open spec fn parsed_define(s: Seq<char>) -> Result<(Seq<char>, Option<Seq<char>>), UnescapeError> {
    match define_parts(s) {
        (name, None) => Ok((name, None)),
        (name, Some(t)) => match unescape_result(t, None) {
            Ok(u) => Ok((name, Some(u))),
            Err(e) => Err(e),
        },
    }
}

/// Reads one command-line definition, `NAME` or `NAME=TEXT`; the text may hold
/// escapes such as `\n`.
pub fn parse_define(define: &str) -> (r: Result<(String, Option<String>), UnescapeError>)
    ensures
        match r {
            Ok((name, text)) => parsed_define(define@) == Ok::<_, UnescapeError>((name@, opt_view(text))),
            Err(e) => parsed_define(define@) == Err::<(Seq<char>, Option<Seq<char>>), _>(e),
        },
        (define_parts(define@).1 matches Some(t) && plain_text(t, None)) ==> (r matches Ok((_, Some(u)))
            && u@ == define_parts(define@).1->0),
        (define_parts(define@).1 matches Some(t) && simple_unescape(t, None) is Some) ==> (r matches Ok((_, Some(u)))
            && u@ == simple_unescape(define_parts(define@).1->0, None)->0),
{
    let v = chars_of(define);
    proof {
        v@.index_of_first_ensures('=');
    }
    let mut i: usize = 0;
    while i < v.len()
        invariant
            0 <= i <= v.len(),
            v@ == define@,
            forall|j: int| 0 <= j < i ==> v@[j] != '=',
        decreases v.len() - i,
    {
        if v[i] == '=' {
            let name = string_from_range(&v, 0, i);
            let rest = string_from_range(&v, i + 1, v.len());
            proof {
                v@.index_of_first_ensures('=');
                assert(v@.contains('='));
                assert(v@.index_of_first('=') == Some(i as int));
                assert(name@ =~= v@.take(i as int));
                assert(rest@ =~= v@.skip(i + 1));
            }
            assert(define_parts(define@).1 == Some(rest@));
            return match unescape(rest.as_str(), None) {
                Ok(text) => Ok((name, Some(text))),
                Err(e) => Err(e),
            };
        }
        i += 1;
    }
    proof {
        v@.index_of_first_ensures('=');
    }
    assert(!v@.contains('=')) by {
        if v@.contains('=') {
            let k = choose|k: int| 0 <= k < v@.len() && v@[k] == '=';
            assert(v@[k] != '=');
        }
    }
    let name = string_from_range(&v, 0, v.len());
    assert(name@ =~= v@);
    Ok((name, None))
}

/// The table that a list of definitions makes: each definition in turn, a later
/// one replacing an earlier one of the same name.
pub open spec fn entries_map(entries: Seq<(Seq<char>, Option<Seq<char>>)>) -> Map<Seq<char>, Option<Seq<char>>>
    decreases entries.len(),
{
    if entries.len() == 0 {
        Map::empty()
    } else {
        entries_map(entries.drop_last()).insert(entries.last().0, entries.last().1)
    }
}

pub open spec fn entry_view(e: (String, Option<String>)) -> (Seq<char>, Option<Seq<char>>) {
    (e.0@, opt_view(e.1))
}

/// A table of macro definitions: names and optional texts.
pub struct Defines {
    entries: Vec<(String, Option<String>)>,
}

impl View for Defines {
    type V = Map<Seq<char>, Option<Seq<char>>>;

    closed spec fn view(&self) -> Map<Seq<char>, Option<Seq<char>>> {
        entries_map(self.entries@.map_values(|e: (String, Option<String>)| entry_view(e)))
    }
}

impl Defines {
    pub fn new() -> (r: Self)
        ensures
            r@ == Map::<Seq<char>, Option<Seq<char>>>::empty(),
    {
        let r = Defines { entries: Vec::new() };
        assert(r.entries@.map_values(|e: (String, Option<String>)| entry_view(e)).len() == 0);
        r
    }

    /// Defines `name`, replacing any definition of it.
    pub fn insert(&mut self, name: String, text: Option<String>)
        ensures
            final(self)@ == old(self)@.insert(name@, opt_view(text)),
    {
        let ghost old_entries = self.entries@.map_values(|e: (String, Option<String>)| entry_view(e));
        self.entries.push((name, text));
        let ghost new_entries = self.entries@.map_values(|e: (String, Option<String>)| entry_view(e));
        assert(new_entries.drop_last() =~= old_entries);
    }

    /// The definitions, such that defining each in turn gives this table.
    pub fn into_entries(self) -> (r: Vec<(String, Option<String>)>)
        ensures
            entries_map(r@.map_values(|e: (String, Option<String>)| entry_view(e))) == self@,
    {
        self.entries
    }
}

/// The table that the command-line definitions make, or the error of the first
/// one that cannot be read.
pub open spec fn command_line_table(list: Seq<Seq<char>>) -> Result<Map<Seq<char>, Option<Seq<char>>>, UnescapeError>
    decreases list.len(),
{
    if list.len() == 0 {
        Ok(Map::empty())
    } else {
        match command_line_table(list.drop_last()) {
            Err(e) => Err(e),
            Ok(m) => match parsed_define(list.last()) {
                Err(e) => Err(e),
                Ok((name, text)) => Ok(m.insert(name, text)),
            },
        }
    }
}

/// Reads the command-line definitions in order into a table; the first one
/// that cannot be read gives the error.
pub fn command_line_defines(defines: &Vec<String>) -> (r: Result<Defines, UnescapeError>)
    ensures
        match r {
            Ok(d) => command_line_table(defines@.map_values(|s: String| s@)) == Ok::<_, UnescapeError>(d@),
            Err(e) => command_line_table(defines@.map_values(|s: String| s@)) == Err::<
                Map<Seq<char>, Option<Seq<char>>>,
                _,
            >(e),
        },
{
    let ghost list = defines@.map_values(|s: String| s@);
    let mut table = Defines::new();
    let mut i: usize = 0;
    while i < defines.len()
        invariant
            0 <= i <= defines.len(),
            list == defines@.map_values(|s: String| s@),
            command_line_table(list.take(i as int)) == Ok::<_, UnescapeError>(table@),
        decreases defines.len() - i,
    {
        assert(list.take(i + 1).drop_last() =~= list.take(i as int));
        assert(list.take(i + 1).last() == defines@[i as int]@);
        match parse_define(defines[i].as_str()) {
            Ok((name, text)) => {
                table.insert(name, text);
            },
            Err(e) => {
                proof {
                    lemma_command_line_table_error(list, i as int + 1, e);
                }
                return Err(e);
            },
        }
        i += 1;
    }
    assert(list.take(i as int) =~= list);
    Ok(table)
}

proof fn lemma_command_line_table_error(list: Seq<Seq<char>>, k: int, e: UnescapeError)
    requires
        0 <= k <= list.len(),
        command_line_table(list.take(k)) == Err::<Map<Seq<char>, Option<Seq<char>>>, _>(e),
    ensures
        command_line_table(list) == Err::<Map<Seq<char>, Option<Seq<char>>>, _>(e),
    decreases list.len() - k,
{
    if k < list.len() {
        assert(list.take(k + 1).drop_last() =~= list.take(k));
        lemma_command_line_table_error(list, k + 1, e);
    } else {
        assert(list.take(k) =~= list);
    }
}

/// The text of a definition from a file list as it is used: without its first
/// character.
pub fn filelist_define_text(text: &str) -> (r: String)
    requires
        text@.len() > 0,
        (text@[0] as u32) < 128,
    ensures
        r@ == text@.drop_first(),
{
    let v = chars_of(text);
    let r = string_from_range(&v, 1, v.len());
    assert(r@ =~= text@.drop_first());
    r
}

/// Adds the definitions of a file list to `table`, in order; a definition
/// with a text keeps that text without its first character.
pub fn add_filelist_defines(table: &mut Defines, defines: &Vec<(String, Option<String>)>)
    requires
        forall|i: int|
            0 <= i < defines@.len() ==> ((#[trigger] defines@[i]).1 matches Some(t) ==> t@.len() > 0
                && (t@[0] as u32) < 128),
    ensures
        final(table)@ == filelist_table(old(table)@, defines@.map_values(|e: (String, Option<String>)| entry_view(e))),
{
    let ghost list = defines@.map_values(|e: (String, Option<String>)| entry_view(e));
    let ghost start = table@;
    let mut i: usize = 0;
    while i < defines.len()
        invariant
            0 <= i <= defines.len(),
            forall|j: int|
                0 <= j < defines@.len() ==> ((#[trigger] defines@[j]).1 matches Some(t) ==> t@.len() > 0
                    && (t@[0] as u32) < 128),
            list == defines@.map_values(|e: (String, Option<String>)| entry_view(e)),
            table@ == filelist_table(start, list.take(i as int)),
        decreases defines.len() - i,
    {
        assert(list.take(i + 1).drop_last() =~= list.take(i as int));
        assert(list[i as int] == entry_view(defines@[i as int]));
        let entry = &defines[i];
        match &entry.1 {
            Some(t) => {
                let t2 = filelist_define_text(t.as_str());
                table.insert(entry.0.clone(), Some(t2));
            },
            None => {
                table.insert(entry.0.clone(), None);
            },
        }
        i += 1;
    }
    assert(list.take(i as int) =~= list);
}

/// `table` after the definitions of a file list.
pub open spec fn filelist_table(
    table: Map<Seq<char>, Option<Seq<char>>>,
    list: Seq<(Seq<char>, Option<Seq<char>>)>,
) -> Map<Seq<char>, Option<Seq<char>>>
    decreases list.len(),
{
    if list.len() == 0 {
        table
    } else {
        let (name, text) = list.last();
        filelist_table(table, list.drop_last()).insert(
            name,
            match text {
                Some(t) => Some(t.drop_first()),
                None => None,
            },
        )
    }
}

} // verus!

verus! {

/// The definition of a name is the last one given for it: if the `i`-th
/// command-line definition defines `name` and no later one does, the table
/// holds its text for `name`.
pub proof fn law_last_definition_wins(list: Seq<Seq<char>>, i: int)
    requires
        0 <= i < list.len(),
        command_line_table(list) is Ok,
        parsed_define(list[i]) is Ok,
        forall|j: int|
            i < j < list.len() ==> (parsed_define(#[trigger] list[j]) matches Ok((n, _)) ==> n
                != parsed_define(list[i])->Ok_0.0),
    ensures
        command_line_table(list)->Ok_0.contains_key(parsed_define(list[i])->Ok_0.0),
        command_line_table(list)->Ok_0[parsed_define(list[i])->Ok_0.0] == parsed_define(list[i])->Ok_0.1,
    decreases list.len(),
{
    let prefix = list.drop_last();
    if i < list.len() - 1 {
        assert forall|j: int| i < j < prefix.len() implies (parsed_define(#[trigger] prefix[j]) matches Ok((n, _))
            ==> n != parsed_define(prefix[i])->Ok_0.0) by {
            assert(prefix[j] == list[j]);
        }
        assert(prefix[i] == list[i]);
        lemma_command_line_table_prefix_ok(list);
        law_last_definition_wins(prefix, i);
        assert(parsed_define(list[list.len() - 1]) is Ok);
    }
}

proof fn lemma_command_line_table_prefix_ok(list: Seq<Seq<char>>)
    requires
        list.len() > 0,
        command_line_table(list) is Ok,
    ensures
        command_line_table(list.drop_last()) is Ok,
        parsed_define(list.last()) is Ok,
{
}

} // verus!

verus! {

/// A text without escapes and without the illegal character reads as itself.
pub proof fn law_plain_text_reads_as_itself(s: Seq<char>, illegal: Option<char>)
    requires
        plain_text(s, illegal),
    ensures
        simple_unescape(s, illegal) == Some(s),
    decreases s.len(),
{
    if s.len() > 0 {
        law_plain_text_reads_as_itself(s.skip(1), illegal);
        assert(seq![s[0]] + s.skip(1) =~= s);
    }
}

/// A backslash followed by one of the one-character escapes reads as the
/// character it stands for: `\t` as a tab, `\n` as a line feed, `\\` as a
/// backslash, `\"` as a double quote, and so on; any other character after a
/// backslash is not such an escape.
pub proof fn law_escape_table(c: char)
    ensures
        simple_escape(c) is Some ==> simple_unescape(seq!['\\', c], None) == Some(seq![simple_escape(c)->0]),
        simple_escape('t') == Some('\t'),
        simple_escape('n') == Some('\n'),
        simple_escape('r') == Some('\r'),
        simple_escape('\\') == Some('\\'),
        simple_escape('"') == Some('"'),
        simple_escape('\'') == Some('\''),
        simple_escape('`') == Some('`'),
        simple_escape('a') == Some('\x07'),
        simple_escape('b') == Some('\x08'),
        simple_escape('f') == Some('\x0c'),
        simple_escape('v') == Some('\x0b'),
        simple_escape(c) is Some <==> (c == '\\' || c == '"' || c == '\'' || c == '`' || c == 'a' || c == 'b'
            || c == 'f' || c == 'n' || c == 'r' || c == 't' || c == 'v'),
{
    let s = seq!['\\', c];
    assert(s[0] == '\\' && s[1] == c && s.len() == 2);
    assert(s.skip(2) =~= Seq::<char>::empty());
    assert(simple_unescape(s.skip(2), None) == Some(Seq::<char>::empty()));
    assert(seq![simple_escape(c)->0] + Seq::<char>::empty() =~= seq![simple_escape(c)->0]);
}

/// Reading escapes works piece by piece: two texts that read each read, side
/// by side, as what the first reads followed by what the second reads.
pub proof fn law_unescape_concatenates(x: Seq<char>, y: Seq<char>, illegal: Option<char>)
    requires
        simple_unescape(x, illegal) is Some,
        simple_unescape(y, illegal) is Some,
    ensures
        simple_unescape(x + y, illegal) == Some(simple_unescape(x, illegal)->0 + simple_unescape(y, illegal)->0),
    decreases x.len(),
{
    if x.len() == 0 {
        assert(x + y =~= y);
        assert(Seq::<char>::empty() + simple_unescape(y, illegal)->0 =~= simple_unescape(y, illegal)->0);
    } else if x[0] == '\\' {
        law_unescape_concatenates(x.skip(2), y, illegal);
        assert((x + y).skip(2) =~= x.skip(2) + y);
        assert((x + y)[0] == x[0] && (x + y)[1] == x[1]);
        let e = simple_escape(x[1])->0;
        assert(seq![e] + (simple_unescape(x.skip(2), illegal)->0 + simple_unescape(y, illegal)->0) =~= (seq![e]
            + simple_unescape(x.skip(2), illegal)->0) + simple_unescape(y, illegal)->0);
    } else {
        law_unescape_concatenates(x.skip(1), y, illegal);
        assert((x + y).skip(1) =~= x.skip(1) + y);
        assert((x + y)[0] == x[0]);
        assert(seq![x[0]] + (simple_unescape(x.skip(1), illegal)->0 + simple_unescape(y, illegal)->0) =~= (seq![x[0]]
            + simple_unescape(x.skip(1), illegal)->0) + simple_unescape(y, illegal)->0);
    }
}

} // verus!
