//! Rules: what a check is called, which category it belongs to and how
//! severe a violation of it is.

use crate::filtering::kept;
use crate::parser::ast::Span;
use crate::text::str_eq;
use vstd::prelude::*;

verus! {

/// The category of a rule.
#[derive(Debug, Clone, Copy, PartialEq, Eq, Hash, Structural)]
pub enum RuleCategory {
    CodeQuality,
    Performance,
    Security,
    BestPractices,
    Maintainability,
}

/// How severe a finding is.
#[derive(Debug, Clone, Copy, PartialEq, Eq, Structural)]
pub enum Severity {
    Error,
    Warning,
    Info,
    Hint,
}

/// A rule of the registry.
#[derive(Debug, Clone, PartialEq)]
pub struct Rule {
    pub id: String,
    pub name: String,
    pub description: String,
    pub category: RuleCategory,
    pub severity: Severity,
}

/// A place where a rule is violated.
#[derive(Debug, Clone, PartialEq)]
pub struct RuleViolation {
    pub rule_id: String,
    pub message: String,
    pub span: Span,
    pub severity: Severity,
    pub suggestion: Option<String>,
}

/// The rules whose id is not `id`.
pub open spec fn other_than(id: Seq<char>) -> spec_fn(Rule) -> bool {
    |r: Rule| r.id@ != id
}

/// The rules of category `category`.
pub open spec fn of_category(category: RuleCategory) -> spec_fn(Rule) -> bool {
    |r: Rule| r.category == category
}

/// The values that a sequence of references points at.
pub open spec fn pointed_at<T>(refs: Seq<&T>) -> Seq<T> {
    Seq::new(refs.len(), |k: int| *refs[k])
}

/// No two rules have the same id.
pub open spec fn ids_distinct(rules: Seq<Rule>) -> bool {
    forall|i: int, j: int|
        0 <= i < j < rules.len() ==> (#[trigger] rules[i]).id@ != (#[trigger] rules[j]).id@
}

/// The rules other than those with the id `id` are rules of the sequence,
/// none of them has that id, and where no two rules of the sequence have the
/// same id, no two of them have.
pub proof fn lemma_others_distinct(rules: Seq<Rule>, id: Seq<char>)
    ensures
        forall|k: int|
            0 <= k < kept(rules, other_than(id)).len() ==> rules.contains(
                #[trigger] kept(rules, other_than(id))[k],
            ) && kept(rules, other_than(id))[k].id@ != id,
        ids_distinct(rules) ==> ids_distinct(kept(rules, other_than(id))),
    decreases rules.len(),
{
    if rules.len() > 0 {
        let front = rules.drop_last();
        lemma_others_distinct(front, id);
        let rest = kept(front, other_than(id));
        let all = kept(rules, other_than(id));
        assert forall|k: int| 0 <= k < all.len() implies rules.contains(#[trigger] all[k])
            && all[k].id@ != id by {
            if k < rest.len() {
                assert(all[k] == rest[k]);
                assert(front.contains(rest[k]));
                let j = choose|j: int| 0 <= j < front.len() && front[j] == rest[k];
                assert(rules[j] == rest[k]);
            } else {
                assert(all[k] == rules[rules.len() - 1]);
            }
        }
        if ids_distinct(rules) {
            assert forall|i: int, j: int| 0 <= i < j < front.len() implies (#[trigger] front[i]).id@
                != (#[trigger] front[j]).id@ by {
                assert(front[i] == rules[i] && front[j] == rules[j]);
            }
            assert forall|i: int, j: int| 0 <= i < j < all.len() implies (#[trigger] all[i]).id@
                != (#[trigger] all[j]).id@ by {
                if j < rest.len() {
                    assert(all[i] == rest[i] && all[j] == rest[j]);
                } else {
                    assert(all[i] == rest[i]);
                    assert(front.contains(rest[i]));
                    let a = choose|a: int| 0 <= a < front.len() && front[a] == rest[i];
                    assert(rules[a] == rest[i]);
                    assert(all[j] == rules[rules.len() - 1]);
                }
            }
        }
    }
}

/// Registering a rule keeps the ids of a registry distinct.
pub proof fn lemma_registered_distinct(rules: Seq<Rule>, rule: Rule)
    requires
        ids_distinct(rules),
    ensures
        ids_distinct(kept(rules, other_than(rule.id@)).push(rule)),
{
    lemma_others_distinct(rules, rule.id@);
    let rest = kept(rules, other_than(rule.id@));
    let all = rest.push(rule);
    assert forall|i: int, j: int| 0 <= i < j < all.len() implies (#[trigger] all[i]).id@ != (
    #[trigger] all[j]).id@ by {
        if j < rest.len() {
            assert(all[i] == rest[i] && all[j] == rest[j]);
        } else {
            assert(all[i] == rest[i]);
        }
    }
}

/// What the registry holds when it is made: the id, category and severity of
/// each of the five rules, in the order of registration.
pub open spec fn default_rules() -> Seq<(Seq<char>, RuleCategory, Severity)> {
    seq![
        ("unused-variable"@, RuleCategory::CodeQuality, Severity::Warning),
        ("empty-catch-block"@, RuleCategory::CodeQuality, Severity::Warning),
        ("inefficient-loop"@, RuleCategory::Performance, Severity::Info),
        ("sql-injection-risk"@, RuleCategory::Security, Severity::Error),
        ("missing-exception-handling"@, RuleCategory::BestPractices, Severity::Info),
    ]
}

/// The id, category and severity of each rule of a sequence.
pub open spec fn summaries(rules: Seq<Rule>) -> Seq<(Seq<char>, RuleCategory, Severity)> {
    Seq::new(rules.len(), |k: int| (rules[k].id@, rules[k].category, rules[k].severity))
}

/// The rules that checks are registered under, each id at most once.
pub struct RuleRegistry {
    rules: Vec<Rule>,
}

impl View for RuleRegistry {
    type V = Seq<Rule>;

    closed spec fn view(&self) -> Seq<Rule> {
        self.rules@
    }
}

fn make_rule(id: &str, name: &str, description: &str, category: RuleCategory, severity: Severity) -> (r:
    Rule)
    ensures
        r.id@ == id@,
        r.name@ == name@,
        r.description@ == description@,
        r.category == category,
        r.severity == severity,
{
    Rule {
        id: id.to_owned(),
        name: name.to_owned(),
        description: description.to_owned(),
        category,
        severity,
    }
}

impl RuleRegistry {
    /// A registry with the five default rules.
    pub fn new() -> (r: RuleRegistry)
        ensures
            summaries(r@) == default_rules(),
            ids_distinct(r@),
    {
        let mut rules: Vec<Rule> = Vec::new();
        rules.push(
            make_rule(
                "unused-variable",
                "Unused Variable",
                "Variables that are declared but never used",
                RuleCategory::CodeQuality,
                Severity::Warning,
            ),
        );
        rules.push(
            make_rule(
                "empty-catch-block",
                "Empty Catch Block",
                "Exception handlers with empty bodies",
                RuleCategory::CodeQuality,
                Severity::Warning,
            ),
        );
        rules.push(
            make_rule(
                "inefficient-loop",
                "Inefficient Loop",
                "Loops that could be optimized",
                RuleCategory::Performance,
                Severity::Info,
            ),
        );
        rules.push(
            make_rule(
                "sql-injection-risk",
                "SQL Injection Risk",
                "Potential SQL injection vulnerabilities",
                RuleCategory::Security,
                Severity::Error,
            ),
        );
        rules.push(
            make_rule(
                "missing-exception-handling",
                "Missing Exception Handling",
                "Procedures that should have exception handling",
                RuleCategory::BestPractices,
                Severity::Info,
            ),
        );
        assert(summaries(rules@) =~= default_rules());
        proof {
            reveal_strlit("unused-variable");
            reveal_strlit("empty-catch-block");
            reveal_strlit("inefficient-loop");
            reveal_strlit("sql-injection-risk");
            reveal_strlit("missing-exception-handling");
            assert(rules@[0].id@.len() == 15);
            assert(rules@[1].id@.len() == 17);
            assert(rules@[2].id@.len() == 16);
            assert(rules@[3].id@.len() == 18);
            assert(rules@[4].id@.len() == 26);
        }
        RuleRegistry { rules }
    }

    /// Registers `rule` in place of any rule with the same id.
    pub fn register(&mut self, rule: Rule)
        ensures
            final(self)@ == kept(old(self)@, other_than(rule.id@)).push(rule),
            ids_distinct(old(self)@) ==> ids_distinct(final(self)@),
    {
        proof {
            if ids_distinct(old(self)@) {
                lemma_registered_distinct(old(self)@, rule);
            }
        }
        let mut out: Vec<Rule> = Vec::new();
        let mut i: usize = 0;
        assert(self.rules@.take(0) =~= Seq::<Rule>::empty());
        while i < self.rules.len()
            invariant
                i <= self.rules.len(),
                self.rules@ == old(self).rules@,
                out@ == kept(self.rules@.take(i as int), other_than(rule.id@)),
            decreases self.rules.len() - i,
        {
            assert(self.rules@.take(i + 1).drop_last() =~= self.rules@.take(i as int));
            if !str_eq(self.rules[i].id.as_str(), rule.id.as_str()) {
                let r = &self.rules[i];
                let copy = Rule {
                    id: r.id.clone(),
                    name: r.name.clone(),
                    description: r.description.clone(),
                    category: r.category,
                    severity: r.severity,
                };
                assert(copy == *r);
                out.push(copy);
            }
            i += 1;
        }
        assert(self.rules@.take(self.rules@.len() as int) =~= self.rules@);
        out.push(rule);
        self.rules = out;
    }

    /// The rules of category `category`, in the order of registration.
    pub fn get_rules_by_category(&self, category: &RuleCategory) -> (r: Vec<&Rule>)
        ensures
            pointed_at(r@) == kept(self@, of_category(*category)),
    {
        let mut out: Vec<&Rule> = Vec::new();
        let mut i: usize = 0;
        assert(self.rules@.take(0) =~= Seq::<Rule>::empty());
        assert(pointed_at(out@) =~= kept(self.rules@.take(0), of_category(*category)));
        while i < self.rules.len()
            invariant
                i <= self.rules.len(),
                pointed_at(out@) == kept(self.rules@.take(i as int), of_category(*category)),
            decreases self.rules.len() - i,
        {
            assert(self.rules@.take(i + 1).drop_last() =~= self.rules@.take(i as int));
            if self.rules[i].category == *category {
                let ghost before = pointed_at(out@);
                out.push(&self.rules[i]);
                assert(pointed_at(out@) =~= before.push(self.rules@[i as int]));
            }
            i += 1;
        }
        assert(self.rules@.take(self.rules@.len() as int) =~= self.rules@);
        out
    }

    /// The rule with id `id`.
    pub fn get_rule(&self, id: &str) -> (r: Option<&Rule>)
        ensures
            match r {
                Some(rule) => rule.id@ == id@ && self@.contains(*rule),
                None => forall|k: int| 0 <= k < self@.len() ==> (#[trigger] self@[k]).id@ != id@,
            },
    {
        let mut i: usize = 0;
        while i < self.rules.len()
            invariant
                i <= self.rules.len(),
                forall|k: int| 0 <= k < i ==> (#[trigger] self.rules@[k]).id@ != id@,
            decreases self.rules.len() - i,
        {
            if str_eq(self.rules[i].id.as_str(), id) {
                assert(self.rules@[i as int] == self.rules[i as int]);
                return Some(&self.rules[i]);
            }
            i += 1;
        }
        None
    }

    /// All rules, in the order of registration.
    pub fn get_all_rules(&self) -> (r: Vec<&Rule>)
        ensures
            pointed_at(r@) == self@,
    {
        let mut out: Vec<&Rule> = Vec::new();
        let mut i: usize = 0;
        assert(pointed_at(out@) =~= self.rules@.take(0));
        while i < self.rules.len()
            invariant
                i <= self.rules.len(),
                pointed_at(out@) == self.rules@.take(i as int),
            decreases self.rules.len() - i,
        {
            let ghost before = pointed_at(out@);
            out.push(&self.rules[i]);
            assert(pointed_at(out@) =~= before.push(self.rules@[i as int]));
            assert(self.rules@.take(i + 1) =~= self.rules@.take(i as int).push(self.rules@[i as int]));
            i += 1;
        }
        assert(self.rules@.take(self.rules@.len() as int) =~= self.rules@);
        out
    }
}

} // verus!
