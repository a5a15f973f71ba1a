//! A package should declare its constants with `localparam`, not `parameter`.

use vstd::prelude::*;
use crate::event::{NodeEvent, NodeKind, SyntaxRuleResult};

verus! {

/// What the rule says of an event: entering a package declaration that holds a
/// parameter declaration fails at that parameter declaration; all else passes.
pub open spec fn parameter_in_package_result(event: NodeEvent) -> SyntaxRuleResult {
    match event {
        NodeEvent::Enter(node) => match node.kind {
            NodeKind::PackageDeclaration { parameter: Some(loc) } => SyntaxRuleResult::FailLocate(loc),
            _ => SyntaxRuleResult::Pass,
        },
        NodeEvent::Leave(_) => SyntaxRuleResult::Pass,
    }
}

/// The rule that packages hold no `parameter` declarations.
#[derive(Debug, Default)]
pub struct ParameterInPackage;

impl ParameterInPackage {
    pub fn new() -> (r: Self) {
        ParameterInPackage
    }

    /// Checks one event: a package declaration with a parameter declaration
    /// inside fails at the first such declaration.
    pub fn check(&mut self, event: &NodeEvent) -> (r: SyntaxRuleResult)
        ensures
            r == parameter_in_package_result(*event),
    {
        let node = match event {
            NodeEvent::Enter(x) => x,
            NodeEvent::Leave(_) => {
                return SyntaxRuleResult::Pass;
            },
        };
        match &node.kind {
            NodeKind::PackageDeclaration { parameter } => {
                if let Some(param_locate) = parameter {
                    SyntaxRuleResult::FailLocate(*param_locate)
                } else {
                    SyntaxRuleResult::Pass
                }
            },
            _ => SyntaxRuleResult::Pass,
        }
    }

    pub fn name(&self) -> (r: String)
        ensures
            r@ == "parameter_in_package"@,
    {
        "parameter_in_package".to_string()
    }

    pub fn hint(&self) -> (r: String)
        ensures
            r@ == "Replace `parameter` keyword with `localparam`."@,
    {
        "Replace `parameter` keyword with `localparam`.".to_string()
    }

    pub fn reason(&self) -> (r: String)
        ensures
            r@ == "In a package, `localparam` properly describes the non-overridable semantics."@,
    {
        "In a package, `localparam` properly describes the non-overridable semantics.".to_string()
    }
}

} // verus!
