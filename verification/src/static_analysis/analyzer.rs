//! The analyzer: naming and size checks on constructs of the procedural
//! dialect.

use crate::filtering::kept;
use crate::parser::ast::{AstNode, Identifier, Parameter, PlSqlNode, Span};
use crate::static_analysis::diagnostics::Diagnostic;
use crate::static_analysis::rules::{
    default_rules, of_category, pointed_at, summaries, Rule, RuleCategory, RuleRegistry,
    RuleViolation, Severity,
};
use crate::text::{decimal, decimal_string, finishes_with, str_finishes_with, to_chars};
use vstd::prelude::*;
use vstd::string::StringExecFns;

verus! {

/// What an analysis looks at and how much it reports.
#[derive(Debug, Clone, PartialEq)]
pub struct AnalysisConfig {
    /// The categories of rules that are on.
    pub enabled_categories: Vec<RuleCategory>,
    /// The largest number of diagnostics reported for one file.
    pub max_diagnostics: usize,
}

impl Default for AnalysisConfig {
    fn default() -> (r: AnalysisConfig)
        ensures
            r.enabled_categories@ == seq![
                RuleCategory::CodeQuality,
                RuleCategory::Performance,
                RuleCategory::Security,
                RuleCategory::BestPractices,
            ],
            r.max_diagnostics == 100,
    {
        let mut enabled_categories: Vec<RuleCategory> = Vec::new();
        enabled_categories.push(RuleCategory::CodeQuality);
        enabled_categories.push(RuleCategory::Performance);
        enabled_categories.push(RuleCategory::Security);
        enabled_categories.push(RuleCategory::BestPractices);
        assert(enabled_categories@ =~= seq![
            RuleCategory::CodeQuality,
            RuleCategory::Performance,
            RuleCategory::Security,
            RuleCategory::BestPractices,
        ]);
        AnalysisConfig { enabled_categories, max_diagnostics: 100 }
    }
}

/// Whether `c` is a lowercase letter in the sense of Unicode.
pub uninterp spec fn unicode_lowercase(c: char) -> bool;

/// `char::is_lowercase` of the standard library: whether `c` has the Unicode
/// property Lowercase. The contract only names the answer.
#[verifier::external_body]
fn is_lowercase(c: char) -> (b: bool)
    ensures
        b == unicode_lowercase(c),
{
    c.is_lowercase()
}

/// A package name ends as the convention asks: with `_API` or `_PKG`.
pub open spec fn package_name_fits(name: Seq<char>) -> bool {
    finishes_with("_API"@, name) || finishes_with("_PKG"@, name)
}

/// A routine name starts as the convention asks: not with a lowercase
/// letter.
pub open spec fn routine_name_fits(name: Seq<char>) -> bool {
    !(name.len() > 0 && unicode_lowercase(name[0]))
}

/// The most parameters a routine may have without a remark.
pub const MAX_PARAMETERS: usize = 10;

/// The message about a routine with `n` parameters.
pub open spec fn too_many_message(n: nat) -> Seq<char> {
    "Too many parameters ("@ + decimal(n) + "). Consider using a record type."@
}

/// `d` is the finding with this message, place, severity and code, from
/// this library and without related places.
pub open spec fn finding(
    d: Diagnostic,
    message: Seq<char>,
    span: Span,
    severity: Severity,
    code: Seq<char>,
) -> bool {
    &&& d.message@ == message
    &&& d.span == span
    &&& d.severity == severity
    &&& d.code matches Some(c) && c@ == code
    &&& d.source@ == "ifs-parser"@
    &&& d.related_information@.len() == 0
}

/// `ds` is what the check of a package name gives.
pub open spec fn package_naming_findings(ds: Seq<Diagnostic>, name: Identifier) -> bool {
    if package_name_fits(name.name@) {
        ds.len() == 0
    } else {
        ds.len() == 1 && finding(
            ds[0],
            "Package names should end with '_API' or '_PKG'"@,
            name.span,
            Severity::Info,
            "package-naming"@,
        )
    }
}

/// `ds` is what the check of a procedure name gives.
pub open spec fn procedure_naming_findings(ds: Seq<Diagnostic>, name: Identifier) -> bool {
    if routine_name_fits(name.name@) {
        ds.len() == 0
    } else {
        ds.len() == 1 && finding(
            ds[0],
            "Procedure names should start with uppercase letter"@,
            name.span,
            Severity::Info,
            "procedure-naming"@,
        )
    }
}

/// `ds` is what the check of a function name gives.
pub open spec fn function_naming_findings(ds: Seq<Diagnostic>, name: Identifier) -> bool {
    if routine_name_fits(name.name@) {
        ds.len() == 0
    } else {
        ds.len() == 1 && finding(
            ds[0],
            "Function names should start with uppercase letter"@,
            name.span,
            Severity::Info,
            "function-naming"@,
        )
    }
}

/// `ds` is what the check of a parameter list gives.
pub open spec fn parameter_findings(ds: Seq<Diagnostic>, parameters: Seq<Parameter>) -> bool {
    if parameters.len() > MAX_PARAMETERS {
        ds.len() == 1 && finding(
            ds[0],
            too_many_message(parameters.len()),
            parameters[0].span,
            Severity::Warning,
            "too-many-parameters"@,
        )
    } else {
        ds.len() == 0
    }
}

/// `ds` is what the analysis of a construct gives: for a package the
/// findings about its name; for a procedure or function the findings about
/// its name, then those about its parameters.
pub open spec fn plsql_findings(ds: Seq<Diagnostic>, node: PlSqlNode) -> bool {
    match node {
        PlSqlNode::Package { name, component, annotations, declarations, body, span } => {
            package_naming_findings(ds, name)
        },
        PlSqlNode::Procedure {
            name,
            visibility,
            annotations,
            parameters,
            body,
            directives,
            span,
        } => exists|n: int|
            0 <= n <= ds.len() && procedure_naming_findings(#[trigger] ds.take(n), name)
                && parameter_findings(ds.skip(n), parameters@),
        PlSqlNode::Function {
            name,
            visibility,
            annotations,
            parameters,
            return_type,
            body,
            directives,
            span,
        } => exists|n: int|
            0 <= n <= ds.len() && function_naming_findings(#[trigger] ds.take(n), name)
                && parameter_findings(ds.skip(n), parameters@),
    }
}

fn make_finding(message: String, span: Span, severity: Severity, code: &str) -> (d: Diagnostic)
    ensures
        finding(d, message@, span, severity, code@),
{
    Diagnostic {
        message,
        span,
        severity,
        code: Some(code.to_owned()),
        source: "ifs-parser".to_owned(),
        related_information: Vec::new(),
    }
}

/// Whether `name` starts with a lowercase letter.
pub fn starts_lowercase(name: &str) -> (b: bool)
    ensures
        b == !routine_name_fits(name@),
{
    let v = to_chars(name);
    v.len() > 0 && is_lowercase(v[0])
}

/// The remark about the name of a routine written at `span`: one finding
/// with `message` and `code` where the name starts with a lowercase letter,
/// as `lowercase` says, and none where it does not.
pub fn naming_remark(lowercase: bool, span: Span, message: &str, code: &str) -> (r: Vec<Diagnostic>)
    ensures
        !lowercase ==> r@.len() == 0,
        lowercase ==> r@.len() == 1 && finding(r@[0], message@, span, Severity::Info, code@),
{
    let mut out: Vec<Diagnostic> = Vec::new();
    if lowercase {
        out.push(make_finding(message.to_owned(), span, Severity::Info, code));
    }
    out
}

/// The rules of the categories `categories`: for each category in turn, its
/// rules in the order of registration.
pub open spec fn enabled_rules(rules: Seq<Rule>, categories: Seq<RuleCategory>) -> Seq<Rule>
    decreases categories.len(),
{
    if categories.len() == 0 {
        Seq::empty()
    } else {
        enabled_rules(rules, categories.drop_last()) + kept(rules, of_category(categories.last()))
    }
}

/// `d` reports the violation `v`: its message, span and severity, the rule's
/// id as code, and this library as source.
pub open spec fn reports(d: Diagnostic, v: RuleViolation) -> bool {
    &&& d.message@ == v.message@
    &&& d.span == v.span
    &&& d.severity == v.severity
    &&& d.code matches Some(c) && c@ == v.rule_id@
    &&& d.source@ == "ifs-parser"@
    &&& d.related_information@.len() == 0
}

/// `ds` report the first `limit` of the violations `vs`, or all of them
/// where they are fewer.
pub open spec fn reported(ds: Seq<Diagnostic>, vs: Seq<RuleViolation>, limit: nat) -> bool {
    &&& ds.len() == if vs.len() <= limit {
        vs.len()
    } else {
        limit
    }
    &&& forall|k: int| 0 <= k < ds.len() ==> reports(#[trigger] ds[k], vs[k])
}

/// The violations of `found`, list after list.
pub open spec fn all_found(found: Seq<Vec<RuleViolation>>) -> Seq<RuleViolation>
    decreases found.len(),
{
    if found.len() == 0 {
        Seq::empty()
    } else {
        all_found(found.drop_last()) + found.last()@
    }
}

/// `found` holds, for every rule of `rules`, a list of violations that
/// `check` may return for it and `ast`.
pub open spec fn answers<F: Fn(&Rule, &AstNode) -> Vec<RuleViolation>>(
    check: F,
    rules: Seq<Rule>,
    ast: &AstNode,
    found: Seq<Vec<RuleViolation>>,
) -> bool {
    found.len() == rules.len() && forall|k: int|
        0 <= k < rules.len() ==> check.ensures((&#[trigger] rules[k], ast), found[k])
}

/// Checks constructs against the conventions.
pub struct Analyzer {
    config: AnalysisConfig,
    rule_registry: RuleRegistry,
}

impl Analyzer {
    /// The configuration the analyzer was made with.
    pub closed spec fn configuration(&self) -> AnalysisConfig {
        self.config
    }

    /// The rules the analyzer knows.
    pub closed spec fn registry(&self) -> RuleRegistry {
        self.rule_registry
    }

    /// An analyzer with the default rules.
    pub fn new(config: AnalysisConfig) -> (r: Analyzer)
        ensures
            r.configuration() == config,
            summaries(r.registry()@) == default_rules(),
    {
        Analyzer { config, rule_registry: RuleRegistry::new() }
    }

    /// The configuration.
    pub fn config(&self) -> (r: &AnalysisConfig)
        ensures
            *r == self.configuration(),
    {
        &self.config
    }

    /// The rules the analyzer knows.
    pub fn rules(&self) -> (r: &RuleRegistry)
        ensures
            *r == self.registry(),
    {
        &self.rule_registry
    }

    /// The rules of the categories that are on: for each category in turn,
    /// its rules in the order of registration.
    pub fn enabled(&self) -> (r: Vec<&Rule>)
        ensures
            pointed_at(r@) == enabled_rules(
                self.registry()@,
                self.configuration().enabled_categories@,
            ),
    {
        let mut out: Vec<&Rule> = Vec::new();
        let mut i: usize = 0;
        let ghost categories = self.config.enabled_categories@;
        assert(categories.take(0) =~= Seq::<RuleCategory>::empty());
        assert(pointed_at(out@) =~= Seq::<Rule>::empty());
        while i < self.config.enabled_categories.len()
            invariant
                i <= self.config.enabled_categories.len(),
                categories == self.config.enabled_categories@,
                pointed_at(out@) == enabled_rules(self.rule_registry@, categories.take(i as int)),
            decreases self.config.enabled_categories.len() - i,
        {
            let ghost before = pointed_at(out@);
            let mut more = self.rule_registry.get_rules_by_category(
                &self.config.enabled_categories[i],
            );
            let ghost added = pointed_at(more@);
            out.append(&mut more);
            proof {
                assert(categories.take(i + 1).drop_last() =~= categories.take(i as int));
                assert(categories.take(i + 1).last() == categories[i as int]);
                assert(pointed_at(out@) =~= before + added);
            }
            i += 1;
        }
        assert(categories.take(categories.len() as int) =~= categories);
        out
    }

    /// The diagnostics that report the violations, as many as the
    /// configuration allows.
    pub fn report(&self, violations: &Vec<RuleViolation>) -> (r: Vec<Diagnostic>)
        ensures
            reported(r@, violations@, self.configuration().max_diagnostics as nat),
    {
        let mut out: Vec<Diagnostic> = Vec::new();
        let mut i: usize = 0;
        while i < violations.len() && i < self.config.max_diagnostics
            invariant
                i <= violations.len(),
                i <= self.config.max_diagnostics,
                out@.len() == i,
                forall|k: int| 0 <= k < i ==> reports(#[trigger] out@[k], violations@[k]),
            decreases violations.len() - i,
        {
            let v = &violations[i];
            out.push(
                Diagnostic {
                    message: v.message.clone(),
                    span: v.span,
                    severity: v.severity,
                    code: Some(v.rule_id.clone()),
                    source: "ifs-parser".to_owned(),
                    related_information: Vec::new(),
                },
            );
            i += 1;
        }
        out
    }

    /// Runs `check` on every rule of the categories that are on and reports
    /// what it finds, as many findings as the configuration allows: there is
    /// a list of violations for every such rule that `check` may return for
    /// it, and the result reports those lists, one after the other.
    pub fn analyze<F>(&self, ast: &AstNode, check: F) -> (r: Vec<Diagnostic>) where
        F: Fn(&Rule, &AstNode) -> Vec<RuleViolation>,

        requires
            forall|rule: &Rule| #[trigger] check.requires((rule, ast)),
        ensures
            exists|found: Seq<Vec<RuleViolation>>|
                answers(
                    check,
                    enabled_rules(self.registry()@, self.configuration().enabled_categories@),
                    ast,
                    found,
                ) && reported(
                    r@,
                    all_found(found),
                    self.configuration().max_diagnostics as nat,
                ),
    {
        let rules = self.enabled();
        let mut violations: Vec<RuleViolation> = Vec::new();
        let ghost mut found: Seq<Vec<RuleViolation>> = Seq::empty();
        let ghost all = pointed_at(rules@);
        let mut i: usize = 0;
        assert(violations@ =~= all_found(found));
        while i < rules.len()
            invariant
                i <= rules.len(),
                all == pointed_at(rules@),
                forall|rule: &Rule| #[trigger] check.requires((rule, ast)),
                found.len() == i,
                forall|k: int| 0 <= k < i ==> check.ensures((&#[trigger] all[k], ast), found[k]),
                violations@ == all_found(found),
            decreases rules.len() - i,
        {
            let mut more = check(rules[i], ast);
            proof {
                let earlier = found;
                found = found.push(more);
                assert(found.drop_last() =~= earlier);
            }
            violations.append(&mut more);
            i += 1;
        }
        let r = self.report(&violations);
        proof {
            assert(answers(check, all, ast, found));
        }
        r
    }

    /// The findings about a construct of the procedural dialect.
    pub fn analyze_plsql(&self, node: &PlSqlNode) -> (r: Vec<Diagnostic>)
        ensures
            plsql_findings(r@, *node),
    {
        match node {
            PlSqlNode::Package { name, component, annotations, declarations, body, span } => {
                self.analyze_package_naming(name)
            },
            PlSqlNode::Procedure {
                name,
                visibility,
                annotations,
                parameters,
                body,
                directives,
                span,
            } => {
                let mut out = self.analyze_procedure_naming(name);
                let ghost first = out@;
                let mut more = self.analyze_parameters(parameters);
                let ghost second = more@;
                out.append(&mut more);
                assert(out@.take(first.len() as int) =~= first);
                assert(out@.skip(first.len() as int) =~= second);
                out
            },
            PlSqlNode::Function {
                name,
                visibility,
                annotations,
                parameters,
                return_type,
                body,
                directives,
                span,
            } => {
                let mut out = self.analyze_function_naming(name);
                let ghost first = out@;
                let mut more = self.analyze_parameters(parameters);
                let ghost second = more@;
                out.append(&mut more);
                assert(out@.take(first.len() as int) =~= first);
                assert(out@.skip(first.len() as int) =~= second);
                out
            },
        }
    }

    /// The findings about the name of a package.
    pub fn analyze_package_naming(&self, name: &Identifier) -> (r: Vec<Diagnostic>)
        ensures
            package_naming_findings(r@, *name),
    {
        let mut out: Vec<Diagnostic> = Vec::new();
        if !str_finishes_with("_API", name.name.as_str()) && !str_finishes_with(
            "_PKG",
            name.name.as_str(),
        ) {
            out.push(
                make_finding(
                    "Package names should end with '_API' or '_PKG'".to_owned(),
                    name.span,
                    Severity::Info,
                    "package-naming",
                ),
            );
        }
        out
    }

    /// The findings about the name of a procedure.
    pub fn analyze_procedure_naming(&self, name: &Identifier) -> (r: Vec<Diagnostic>)
        ensures
            procedure_naming_findings(r@, *name),
    {
        naming_remark(
            starts_lowercase(name.name.as_str()),
            name.span,
            "Procedure names should start with uppercase letter",
            "procedure-naming",
        )
    }

    /// The findings about the name of a function.
    pub fn analyze_function_naming(&self, name: &Identifier) -> (r: Vec<Diagnostic>)
        ensures
            function_naming_findings(r@, *name),
    {
        naming_remark(
            starts_lowercase(name.name.as_str()),
            name.span,
            "Function names should start with uppercase letter",
            "function-naming",
        )
    }

    /// The findings about a parameter list.
    pub fn analyze_parameters(&self, parameters: &Vec<Parameter>) -> (r: Vec<Diagnostic>)
        ensures
            parameter_findings(r@, parameters@),
    {
        let mut out: Vec<Diagnostic> = Vec::new();
        if parameters.len() > MAX_PARAMETERS {
            let mut message = "Too many parameters (".to_owned();
            let count = decimal_string(parameters.len() as u64);
            message.append(count.as_str());
            message.append("). Consider using a record type.");
            out.push(
                make_finding(message, parameters[0].span, Severity::Warning, "too-many-parameters"),
            );
        }
        out
    }
}

} // verus!
