use vstd::prelude::*;

use crate::model::{rules_view, OverrideRule, RuleAction, RuleView};

verus! {

/// Why a set of override rules was refused.
#[derive(Clone, Debug)]
pub enum ConfigError {
    /// The rule text could not be read as the expected structure.
    Malformed(String),
    /// The named package carries an exclude rule and a rule that keeps it.
    Conflict(String),
}

/// Rule `i` and some rule on the same package disagree on whether it is excluded.
pub open spec fn conflicts_at(rules: Seq<RuleView>, i: int) -> bool {
    exists|j: int|
        0 <= j < rules.len() && rules[j].name == rules[i].name && (rules[i].action is Exclude)
            != (rules[j].action is Exclude)
}

pub open spec fn has_conflict(rules: Seq<RuleView>) -> bool {
    exists|i: int| 0 <= i < rules.len() && conflicts_at(rules, i)
}

fn is_exclusion(r: &OverrideRule) -> (b: bool)
    ensures
        b == (r@.action is Exclude),
{
    match r.action {
        RuleAction::Exclude => true,
        _ => false,
    }
}

/// Accepts a parsed rule set unless a package carries both an exclude rule
/// and a force-include, pin or feature rule; the conflict reported is that of
/// the first rule involved in one.
pub fn load_rules(rules: Vec<OverrideRule>) -> (r: Result<Vec<OverrideRule>, ConfigError>)
    ensures
        r is Ok <==> !has_conflict(rules_view(rules@)),
        match r {
            Ok(v) => v@ == rules@,
            Err(ConfigError::Conflict(n)) => exists|i: int|
                0 <= i < rules.len() && conflicts_at(rules_view(rules@), i) && rules@[i].name@
                    == n@ && forall|j: int| 0 <= j < i ==> !conflicts_at(rules_view(rules@), j),
            Err(ConfigError::Malformed(_)) => false,
        },
{
    let ghost rv = rules_view(rules@);
    let mut i: usize = 0;
    while i < rules.len()
        invariant
            i <= rules.len(),
            rv == rules_view(rules@),
            forall|k: int| 0 <= k < i ==> !conflicts_at(rv, k),
        decreases rules.len() - i,
    {
        let excluded_i = is_exclusion(&rules[i]);
        let mut j: usize = 0;
        while j < rules.len()
            invariant
                i < rules.len(),
                j <= rules.len(),
                rv == rules_view(rules@),
                excluded_i == (rv[i as int].action is Exclude),
                forall|k: int| 0 <= k < i ==> !conflicts_at(rv, k),
                forall|k: int|
                    0 <= k < j ==> !(rv[k].name == rv[i as int].name && (rv[i as int].action is Exclude)
                        != (rv[k].action is Exclude)),
            decreases rules.len() - j,
        {
            let excluded_j = is_exclusion(&rules[j]);
            if excluded_i != excluded_j && rules[j].name == rules[i].name {
                assert(rv[j as int].name == rv[i as int].name);
                assert(conflicts_at(rv, i as int));
                return Err(ConfigError::Conflict(rules[i].name.clone()));
            }
            j = j + 1;
        }
        assert(!conflicts_at(rv, i as int));
        i = i + 1;
    }
    Ok(rules)
}

/// An exclude rule and a pin rule on one package can never be loaded together.
pub proof fn lemma_exclude_pin_conflict(rules: Seq<RuleView>, i: int, j: int)
    requires
        0 <= i < rules.len(),
        0 <= j < rules.len(),
        rules[i].action is Exclude,
        rules[j].action is PinVersion,
        rules[i].name == rules[j].name,
    ensures
        has_conflict(rules),
{
    assert(conflicts_at(rules, i));
}

} // verus!
