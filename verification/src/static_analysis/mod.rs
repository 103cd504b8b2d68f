//! Diagnostics about syntax trees: the diagnostic schema, the registry of
//! rules, and the analyzer that runs checks and reports what they find.

pub mod analyzer;
pub mod diagnostics;
pub mod rules;

use crate::parser::ast::AstNode;
use crate::static_analysis::analyzer::{
    all_found, answers, enabled_rules, reported, AnalysisConfig, Analyzer,
};
use crate::static_analysis::diagnostics::Diagnostic;
use crate::static_analysis::rules::{default_rules, summaries, Rule, RuleCategory, RuleViolation};
use vstd::prelude::*;

verus! {

/// Runs `check` on every default rule of the categories that `config` turns
/// on and reports what it finds, as many findings as `config` allows.
pub fn analyze<F>(ast: &AstNode, config: &AnalysisConfig, check: F) -> (r: Vec<Diagnostic>) where
    F: Fn(&Rule, &AstNode) -> Vec<RuleViolation>,

    requires
        forall|rule: &Rule| #[trigger] check.requires((rule, ast)),
    ensures
        exists|rules: Seq<Rule>, found: Seq<Vec<RuleViolation>>|
            summaries(rules) == default_rules() && #[trigger] answers(
                check,
                enabled_rules(rules, config.enabled_categories@),
                ast,
                found,
            ) && reported(r@, all_found(found), config.max_diagnostics as nat),
{
    let mut enabled_categories: Vec<RuleCategory> = Vec::new();
    let mut i: usize = 0;
    while i < config.enabled_categories.len()
        invariant
            i <= config.enabled_categories.len(),
            enabled_categories@ == config.enabled_categories@.take(i as int),
        decreases config.enabled_categories.len() - i,
    {
        enabled_categories.push(config.enabled_categories[i]);
        assert(enabled_categories@ =~= config.enabled_categories@.take(i + 1));
        i += 1;
    }
    assert(config.enabled_categories@.take(config.enabled_categories@.len() as int)
        =~= config.enabled_categories@);
    let analyzer = Analyzer::new(
        AnalysisConfig { enabled_categories, max_diagnostics: config.max_diagnostics },
    );
    let r = analyzer.analyze(ast, check);
    proof {
        let found = choose|found: Seq<Vec<RuleViolation>>|
            answers(
                check,
                enabled_rules(
                    analyzer.registry()@,
                    analyzer.configuration().enabled_categories@,
                ),
                ast,
                found,
            ) && reported(
                r@,
                all_found(found),
                analyzer.configuration().max_diagnostics as nat,
            );
        assert(answers(
            check,
            enabled_rules(analyzer.registry()@, config.enabled_categories@),
            ast,
            found,
        ));
    }
    r
}

} // verus!
