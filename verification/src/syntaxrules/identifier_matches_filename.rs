//! A module must stand in a file named after it: `module Bar` in `some/path/to/Bar.sv`.

use vstd::prelude::*;
use crate::event::{NodeEvent, NodeKind, SyntaxRuleResult};
use crate::path::{file_name, path_file_name};
use crate::text::{chars_equal, chars_of, ends_with, prefix_ends_with};

verus! {

/// The extension of SystemVerilog source files.
pub open spec fn sv_extension() -> Seq<char> {
    seq!['.', 's', 'v']
}

/// A module named `identifier` in the file at `path` is where it belongs: the
/// final component of the path is `identifier` followed by `.sv`.
pub open spec fn module_matches_file(identifier: Seq<char>, path: Option<Seq<char>>) -> bool {
    match path {
        Some(p) => file_name(p) == Some(identifier + sv_extension()),
        None => false,
    }
}

/// What the rule says of an event.
pub open spec fn identifier_matches_filename_result(event: NodeEvent) -> SyntaxRuleResult {
    match event {
        NodeEvent::Enter(node) => match node.kind {
            NodeKind::ModuleDeclaration { identifier, path } => {
                let p = match path {
                    Some(p) => Some(p@),
                    None => None,
                };
                if module_matches_file(identifier@, p) {
                    SyntaxRuleResult::Pass
                } else {
                    SyntaxRuleResult::Fail
                }
            },
            _ => SyntaxRuleResult::Pass,
        },
        NodeEvent::Leave(_) => SyntaxRuleResult::Pass,
    }
}

/// The rule that a module's name matches the name of its file.
#[derive(Debug, Default)]
pub struct IdentifierMatchesFilename;

impl IdentifierMatchesFilename {
    pub fn new() -> (r: Self) {
        IdentifierMatchesFilename
    }

    /// Checks one event: entering a module declaration fails unless the module
    /// stands in a file named after it; every other event passes.
    pub fn check(&mut self, event: &NodeEvent) -> (r: SyntaxRuleResult)
        ensures
            r == identifier_matches_filename_result(*event),
    {
        let node = match event {
            NodeEvent::Enter(x) => x,
            NodeEvent::Leave(_) => {
                return SyntaxRuleResult::Pass;
            },
        };
        match &node.kind {
            NodeKind::ModuleDeclaration { identifier, path } => {
                let path = match path {
                    Some(p) => p,
                    None => {
                        return SyntaxRuleResult::Fail;
                    },
                };
                if module_name_matches(identifier.as_str(), path.as_str()) {
                    SyntaxRuleResult::Pass
                } else {
                    SyntaxRuleResult::Fail
                }
            },
            _ => SyntaxRuleResult::Pass,
        }
    }

    pub fn name(&self) -> (r: String)
        ensures
            r@ == "identifier_matches_filename"@,
    {
        "identifier_matches_filename".to_string()
    }

    pub fn hint(&self) -> (r: String)
        ensures
            r@ == "Ensure that the module name matches the file name. module Bar should be in some/path/to/Bar.sv"@,
    {
        "Ensure that the module name matches the file name. module Bar should be in some/path/to/Bar.sv".to_string()
    }

    pub fn reason(&self) -> (r: String)
        ensures
            r@ == "The module name does not match the file name."@,
    {
        "The module name does not match the file name.".to_string()
    }
}

/// Whether a module named `identifier` belongs in the file at `path`.
pub fn module_name_matches(identifier: &str, path: &str) -> (r: bool)
    ensures
        r == module_matches_file(identifier@, Some(path@)),
{
    let file = match path_file_name(path) {
        Some(f) => f,
        None => {
            return false;
        },
    };
    let f = chars_of(file.as_str());
    let ext = vec!['.', 's', 'v'];
    assert(ext@ == sv_extension());
    assert(f@.take(f@.len() as int) =~= f@);
    if !prefix_ends_with(&f, f.len(), &ext) {
        assert(f@ != identifier@ + sv_extension()) by {
            if f@ == identifier@ + sv_extension() {
                assert(f@.subrange(f@.len() - 3, f@.len() as int) =~= sv_extension());
            }
        }
        return false;
    }
    let end = f.len() - 3;
    let id = chars_of(identifier);
    let r = chars_equal(&f, end, &id);
    proof {
        if r {
            assert(f@ =~= f@.take(end as int) + f@.subrange(end as int, f@.len() as int));
        } else if f@ == identifier@ + sv_extension() {
            assert(f@.take(end as int) =~= identifier@);
        }
    }
    r
}

} // verus!

verus! {

proof fn lemma_segment_start_append(d: Seq<char>, s: Seq<char>)
    requires
        forall|i: int| 0 <= i < s.len() ==> s[i] != '/',
        d.len() == 0 || d.last() == '/',
    ensures
        crate::path::segment_start(d + s) == d.len(),
    decreases s.len(),
{
    if s.len() > 0 {
        assert((d + s).drop_last() =~= d + s.drop_last());
        lemma_segment_start_append(d, s.drop_last());
    } else {
        assert(d + s =~= d);
    }
}

/// A module passes exactly where the hint puts it: `module m` in a file
/// `<dir>/m.sv` (or `m.sv`), for every module name without `/`.
pub proof fn law_module_in_own_file(dir: Seq<char>, module: Seq<char>)
    requires
        module.len() > 0,
        forall|i: int| 0 <= i < module.len() ==> module[i] != '/',
        dir.len() == 0 || dir.last() == '/',
    ensures
        module_matches_file(module, Some(dir + module + sv_extension())),
{
    let s = module + sv_extension();
    let p = dir + module + sv_extension();
    assert(p =~= dir + s);
    assert forall|i: int| 0 <= i < s.len() implies s[i] != '/' by {
        if i >= module.len() {
            assert(s[i] == sv_extension()[i - module.len()]);
        }
    }
    lemma_segment_start_append(dir, s);
    assert(p.last() == 'v');
    assert(p.subrange(dir.len() as int, p.len() as int) =~= s);
    assert(s != seq!['.']) by {
        assert(s.len() != 1);
    }
    assert(crate::path::last_component(p) == Some(s));
    assert(s != seq!['.', '.']) by {
        assert(s.len() != 2);
    }
}

/// A second `.sv` is not part of the module's name: `module m` in a file
/// `<dir>/m.sv.sv` fails.
pub proof fn law_double_extension_fails(dir: Seq<char>, module: Seq<char>)
    requires
        module.len() > 0,
        forall|i: int| 0 <= i < module.len() ==> module[i] != '/',
        dir.len() == 0 || dir.last() == '/',
    ensures
        !module_matches_file(module, Some(dir + module + sv_extension() + sv_extension())),
{
    let m2 = module + sv_extension();
    assert forall|i: int| 0 <= i < m2.len() implies m2[i] != '/' by {
        if i >= module.len() {
            assert(m2[i] == sv_extension()[i - module.len()]);
        }
    }
    law_module_in_own_file(dir, m2);
    assert(dir + module + sv_extension() + sv_extension() =~= dir + m2 + sv_extension());
    assert((module + sv_extension()).len() != (m2 + sv_extension()).len());
}

} // verus!

verus! {

/// A module passes exactly when the final component of its file's path is
/// the module's name, character for character, followed by `.sv`; a module
/// whose file is not known fails.
pub proof fn law_module_matches_exactly_its_file(identifier: Seq<char>, path: Seq<char>)
    ensures
        !module_matches_file(identifier, None),
        module_matches_file(identifier, Some(path)) <==> (file_name(path) is Some && ({
            let f = file_name(path)->0;
            let n = identifier.len() as int;
            &&& f.len() == n + 3
            &&& forall|i: int| 0 <= i < n ==> f[i] == identifier[i]
            &&& f[n] == '.'
            &&& f[n + 1] == 's'
            &&& f[n + 2] == 'v'
        })),
{
    let n = identifier.len() as int;
    if file_name(path) is Some {
        let f = file_name(path)->0;
        if f.len() == n + 3 && (forall|i: int| 0 <= i < n ==> f[i] == identifier[i]) && f[n] == '.' && f[n
            + 1] == 's' && f[n + 2] == 'v' {
            assert(f =~= identifier + sv_extension());
        }
        if f == identifier + sv_extension() {
            assert(f[n] == sv_extension()[0]);
            assert(f[n + 1] == sv_extension()[1]);
            assert(f[n + 2] == sv_extension()[2]);
        }
    }
}

} // verus!
