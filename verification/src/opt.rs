//! The options of a lint run, and the sources they name.

use vstd::prelude::*;
use crate::define::{add_filelist_defines, entry_view, filelist_table, Defines};

verus! {

/// The command-line options.
#[derive(Debug)]
pub struct Opt {
    /// Source files.
    pub files: Vec<String>,
    /// File lists.
    pub filelist: Vec<String>,
    /// Macro definitions, `NAME` or `NAME=TEXT`.
    pub defines: Vec<String>,
    /// Include paths.
    pub includes: Vec<String>,
    /// Config file.
    pub config: String,
    /// Plugin files.
    pub plugins: Vec<String>,
    /// Ignore any include.
    pub ignore_include: bool,
    /// Print results by single line.
    pub single: bool,
    /// Suppress messages.
    pub silent: bool,
    /// Print verbose messages.
    pub verbose: bool,
    /// Print messages for GitHub Actions.
    pub github_actions: bool,
    /// Update the config file.
    pub update_config: bool,
    /// Print a config example.
    pub example: bool,
}

/// What a file list names: files, include directories and definitions.
#[derive(Debug)]
pub struct Filelist {
    pub files: Vec<String>,
    pub incdirs: Vec<String>,
    pub defines: Vec<(String, Option<String>)>,
}

pub open spec fn names_view(v: Vec<String>) -> Seq<Seq<char>> {
    v@.map_values(|s: String| s@)
}

/// The files of the lists, list after list.
pub open spec fn listed_files(lists: Seq<Filelist>) -> Seq<Seq<char>>
    decreases lists.len(),
{
    if lists.len() == 0 {
        seq![]
    } else {
        listed_files(lists.drop_last()) + names_view(lists.last().files)
    }
}

/// The include directories of the lists, list after list.
pub open spec fn listed_incdirs(lists: Seq<Filelist>) -> Seq<Seq<char>>
    decreases lists.len(),
{
    if lists.len() == 0 {
        seq![]
    } else {
        listed_incdirs(lists.drop_last()) + names_view(lists.last().incdirs)
    }
}

/// `table` after the definitions of the lists, list after list.
pub open spec fn listed_table(table: Map<Seq<char>, Option<Seq<char>>>, lists: Seq<Filelist>) -> Map<
    Seq<char>,
    Option<Seq<char>>,
>
    decreases lists.len(),
{
    if lists.len() == 0 {
        table
    } else {
        filelist_table(
            listed_table(table, lists.drop_last()),
            lists.last().defines@.map_values(|e: (String, Option<String>)| entry_view(e)),
        )
    }
}

/// Every definition text in the lists can lose its first character.
pub open spec fn filelist_texts_ok(lists: Seq<Filelist>) -> bool {
    forall|k: int, i: int|
        0 <= k < lists.len() && 0 <= i < lists[k].defines@.len() ==> ((#[trigger] lists[k].defines@[i]).1 matches Some(
            t,
        ) ==> t@.len() > 0 && (t@[0] as u32) < 128)
}

fn append_strings(to: &mut Vec<String>, from: &Vec<String>)
    ensures
        names_view(*final(to)) == names_view(*old(to)) + names_view(*from),
{
    let ghost start = names_view(*to);
    let mut i: usize = 0;
    while i < from.len()
        invariant
            0 <= i <= from.len(),
            names_view(*to) == start + names_view(*from).take(i as int),
        decreases from.len() - i,
    {
        let ghost before = names_view(*to);
        let item = from[i].clone();
        to.push(item);
        assert(names_view(*to) =~= before.push(from@[i as int]@));
        assert(names_view(*from).take(i + 1) =~= names_view(*from).take(i as int).push(from@[i as int]@));
        assert(names_view(*to) =~= start + names_view(*from).take(i + 1));
        i += 1;
    }
    assert(names_view(*from).take(i as int) =~= names_view(*from));
}

/// The files and include directories to lint. With file lists, the files and
/// include directories of the options come first and those of each list
/// follow, and the definitions of the lists go into `defines`; without file
/// lists, the options' own files and include directories, and `defines` is left
/// as it is.
pub fn sources(opt: &Opt, lists: &Vec<Filelist>, defines: &mut Defines) -> (r: (Vec<String>, Vec<String>))
    requires
        filelist_texts_ok(lists@),
    ensures
        opt.filelist.len() > 0 ==> names_view(r.0) == names_view(opt.files) + listed_files(lists@)
            && names_view(r.1) == names_view(opt.includes) + listed_incdirs(lists@)
            && final(defines)@ == listed_table(old(defines)@, lists@),
        opt.filelist.len() == 0 ==> names_view(r.0) == names_view(opt.files) && names_view(r.1)
            == names_view(opt.includes) && final(defines)@ == old(defines)@,
{
    let mut files: Vec<String> = Vec::new();
    let mut includes: Vec<String> = Vec::new();
    append_strings(&mut files, &opt.files);
    append_strings(&mut includes, &opt.includes);
    assert(names_view(files) =~= names_view(opt.files));
    assert(names_view(includes) =~= names_view(opt.includes));
    if opt.filelist.len() == 0 {
        return (files, includes);
    }
    let ghost start = defines@;
    let mut k: usize = 0;
    while k < lists.len()
        invariant
            0 <= k <= lists.len(),
            filelist_texts_ok(lists@),
            names_view(files) == names_view(opt.files) + listed_files(lists@.take(k as int)),
            names_view(includes) == names_view(opt.includes) + listed_incdirs(lists@.take(k as int)),
            defines@ == listed_table(start, lists@.take(k as int)),
        decreases lists.len() - k,
    {
        let list = &lists[k];
        assert(lists@.take(k + 1).drop_last() =~= lists@.take(k as int));
        assert(lists@.take(k + 1).last() == lists@[k as int]);
        append_strings(&mut files, &list.files);
        append_strings(&mut includes, &list.incdirs);
        assert forall|i: int| 0 <= i < list.defines@.len() implies ((#[trigger] list.defines@[i]).1 matches Some(
            t,
        ) ==> t@.len() > 0 && (t@[0] as u32) < 128) by {
            assert(lists@[k as int].defines@[i] == list.defines@[i]);
        }
        add_filelist_defines(defines, &list.defines);
        k += 1;
    }
    assert(lists@.take(k as int) =~= lists@);
    (files, includes)
}

} // verus!

verus! {

/// One file list names its own files and include directories, and its
/// definitions go into the table in turn.
pub proof fn law_single_list(l: Filelist, table: Map<Seq<char>, Option<Seq<char>>>)
    ensures
        listed_files(seq![l]) == names_view(l.files),
        listed_incdirs(seq![l]) == names_view(l.incdirs),
        listed_table(table, seq![l]) == filelist_table(
            table,
            l.defines@.map_values(|e: (String, Option<String>)| entry_view(e)),
        ),
{
    let one = seq![l];
    assert(one.drop_last() =~= Seq::<Filelist>::empty());
    assert(one.last() == l);
    assert(listed_files(one.drop_last()) =~= Seq::<Seq<char>>::empty());
    assert(listed_incdirs(one.drop_last()) =~= Seq::<Seq<char>>::empty());
    assert(listed_table(table, one.drop_last()) == table);
    assert(Seq::<Seq<char>>::empty() + names_view(l.files) =~= names_view(l.files));
    assert(Seq::<Seq<char>>::empty() + names_view(l.incdirs) =~= names_view(l.incdirs));
}

/// File lists given one after another name the files and include directories
/// of the first lists followed by those of the later ones, each list keeping
/// its own order, and their definitions go into the table list after list.
pub proof fn law_lists_concatenate(a: Seq<Filelist>, b: Seq<Filelist>, table: Map<Seq<char>, Option<Seq<char>>>)
    ensures
        listed_files(a + b) == listed_files(a) + listed_files(b),
        listed_incdirs(a + b) == listed_incdirs(a) + listed_incdirs(b),
        listed_table(table, a + b) == listed_table(listed_table(table, a), b),
    decreases b.len(),
{
    if b.len() == 0 {
        assert(a + b =~= a);
        assert(listed_files(a) + listed_files(b) =~= listed_files(a));
        assert(listed_incdirs(a) + listed_incdirs(b) =~= listed_incdirs(a));
    } else {
        assert((a + b).drop_last() =~= a + b.drop_last());
        assert((a + b).last() == b.last());
        law_lists_concatenate(a, b.drop_last(), table);
        assert(listed_files(a + b) =~= listed_files(a) + listed_files(b));
        assert(listed_incdirs(a + b) =~= listed_incdirs(a) + listed_incdirs(b));
    }
}

} // verus!
