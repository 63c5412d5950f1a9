use vstd::prelude::*;

use crate::manifest::{infos_of, table_of};
use crate::model::{DepView, RankedView, RuleView};
use crate::names::{lemma_name_lt_asymmetric, lemma_name_lt_irreflexive};
use crate::resolve::{
    excluded_names, feature_unknown, featured_entries, forced_entries,
    has_pin_unknown, lists_entries, pin_unknown, pinned_entries, ranked_entries, reported_unknown,
    resolvable, resolved_entries, resolves_to, sorted_by_name, working_entries,
};

verus! {

// ---------------------------------------------------------------------
// Facts about the resolution steps.
// ---------------------------------------------------------------------

proof fn lemma_listing_unique(a: Seq<DepView>, b: Seq<DepView>, m: Map<Seq<char>, DepView>)
    requires
        sorted_by_name(a),
        sorted_by_name(b),
        lists_entries(a, m),
        lists_entries(b, m),
    ensures
        a == b,
    decreases a.len(),
{
    if a.len() == 0 {
        if b.len() > 0 {
            assert(m.contains_key(b[0].name));
        }
        assert(a =~= b);
    } else {
        assert(m.contains_key(a[0].name));
        assert(b.len() > 0);
        assert(m.contains_key(b[0].name));
        if a[0].name != b[0].name {
            let j = choose|j: int| 0 <= j < a.len() && a[j].name == b[0].name;
            let k = choose|k: int| 0 <= k < b.len() && b[k].name == a[0].name;
            assert(name_lt_at(a, 0, j));
            assert(name_lt_at(b, 0, k));
            lemma_name_lt_asymmetric(a[0].name, b[0].name);
        }
        let n0 = a[0].name;
        let m2 = m.remove(n0);
        let a2 = a.skip(1);
        let b2 = b.skip(1);
        assert forall|i: int| 0 <= i < a2.len() implies #[trigger] m2.contains_key(a2[i].name)
            && m2[a2[i].name] == a2[i] by {
            assert(a2[i] == a[i + 1]);
            assert(m.contains_key(a[i + 1].name));
            assert(name_lt_at(a, 0, i + 1));
            lemma_name_lt_irreflexive(n0);
        }
        assert forall|n: Seq<char>| #[trigger] m2.contains_key(n) implies exists|i: int|
            0 <= i < a2.len() && a2[i].name == n by {
            assert(m.contains_key(n));
            let i = choose|i: int| 0 <= i < a.len() && a[i].name == n;
            assert(a2[i - 1] == a[i]);
        }
        assert forall|i: int| 0 <= i < b2.len() implies #[trigger] m2.contains_key(b2[i].name)
            && m2[b2[i].name] == b2[i] by {
            assert(b2[i] == b[i + 1]);
            assert(m.contains_key(b[i + 1].name));
            assert(name_lt_at(b, 0, i + 1));
            lemma_name_lt_irreflexive(n0);
        }
        assert forall|n: Seq<char>| #[trigger] m2.contains_key(n) implies exists|i: int|
            0 <= i < b2.len() && b2[i].name == n by {
            assert(m.contains_key(n));
            let i = choose|i: int| 0 <= i < b.len() && b[i].name == n;
            assert(b2[i - 1] == b[i]);
        }
        lemma_listing_unique(a2, b2, m2);
        assert(a =~= seq![a[0]] + a2);
        assert(b =~= seq![b[0]] + b2);
    }
}

spec fn name_lt_at(s: Seq<DepView>, i: int, j: int) -> bool {
    0 <= i < j < s.len() ==> crate::names::name_lt(s[i].name, s[j].name)
}

proof fn lemma_excluded_names(rules: Seq<RuleView>, i: int)
    requires
        0 <= i < rules.len(),
        rules[i].action is Exclude,
    ensures
        excluded_names(rules).contains(rules[i].name),
    decreases rules.len(),
{
    if i < rules.len() - 1 {
        lemma_excluded_names(rules.drop_last(), i);
    }
}

proof fn lemma_ranked_names(ranked: Seq<RankedView>, n: Seq<char>)
    requires
        ranked_entries(ranked).contains_key(n),
    ensures
        exists|j: int| 0 <= j < ranked.len() && ranked[j].name == n,
    decreases ranked.len(),
{
    if ranked.len() > 0 && ranked_entries(ranked.drop_last()).contains_key(n) {
        lemma_ranked_names(ranked.drop_last(), n);
        let j = choose|j: int| 0 <= j < ranked.len() - 1 && ranked.drop_last()[j].name == n;
        assert(ranked[j].name == n);
    }
}

proof fn lemma_forced_names(
    m: Map<Seq<char>, DepView>,
    rules: Seq<RuleView>,
    excluded: Set<Seq<char>>,
    n: Seq<char>,
)
    requires
        forced_entries(m, rules, excluded).contains_key(n),
    ensures
        m.contains_key(n) || (!excluded.contains(n) && exists|j: int|
            0 <= j < rules.len() && rules[j].action is ForceInclude && rules[j].name == n),
    decreases rules.len(),
{
    if rules.len() > 0 && forced_entries(m, rules.drop_last(), excluded).contains_key(n) {
        lemma_forced_names(m, rules.drop_last(), excluded, n);
        if !m.contains_key(n) {
            let j = choose|j: int|
                0 <= j < rules.len() - 1 && rules.drop_last()[j].action is ForceInclude
                    && rules.drop_last()[j].name == n;
            assert(rules[j] == rules.drop_last()[j]);
        }
    }
}

proof fn lemma_pinned_dom(m: Map<Seq<char>, DepView>, rules: Seq<RuleView>)
    ensures
        pinned_entries(m, rules).dom() == m.dom(),
    decreases rules.len(),
{
    if rules.len() > 0 {
        lemma_pinned_dom(m, rules.drop_last());
        let prev = pinned_entries(m, rules.drop_last());
        if prev.contains_key(rules.last().name) {
            assert(prev.insert(rules.last().name, prev[rules.last().name]).dom() =~= prev.dom());
        }
        assert(pinned_entries(m, rules).dom() =~= m.dom());
    }
}

proof fn lemma_featured_dom(m: Map<Seq<char>, DepView>, rules: Seq<RuleView>)
    ensures
        featured_entries(m, rules).dom() == m.dom(),
    decreases rules.len(),
{
    if rules.len() > 0 {
        lemma_featured_dom(m, rules.drop_last());
        let prev = featured_entries(m, rules.drop_last());
        if prev.contains_key(rules.last().name) {
            assert(prev.insert(rules.last().name, prev[rules.last().name]).dom() =~= prev.dom());
        }
        assert(featured_entries(m, rules).dom() =~= m.dom());
    }
}

proof fn lemma_resolved_dom(ranked: Seq<RankedView>, rules: Seq<RuleView>)
    ensures
        resolved_entries(ranked, rules).dom() == working_entries(ranked, rules).dom(),
{
    let w = working_entries(ranked, rules);
    lemma_pinned_dom(w, rules);
    lemma_featured_dom(pinned_entries(w, rules), rules);
}

// ---------------------------------------------------------------------
// Laws of resolution.
// ---------------------------------------------------------------------

/// Resolution is deterministic: one input has exactly one resolved selection,
/// so resolving it twice gives the same sequence of entries, and the same
/// dependency table and information records.
pub proof fn lemma_resolution_deterministic(
    ranked: Seq<RankedView>,
    rules: Seq<RuleView>,
    a: Seq<DepView>,
    b: Seq<DepView>,
)
    requires
        resolves_to(ranked, rules, a),
        resolves_to(ranked, rules, b),
    ensures
        a == b,
        table_of(a) == table_of(b),
        infos_of(a) == infos_of(b),
{
    lemma_listing_unique(a, b, resolved_entries(ranked, rules));
}

/// A failed resolution is deterministic too: one input reports one name.
pub proof fn lemma_failure_deterministic(
    ranked: Seq<RankedView>,
    rules: Seq<RuleView>,
    n1: Seq<char>,
    n2: Seq<char>,
)
    requires
        reported_unknown(ranked, rules, n1),
        reported_unknown(ranked, rules, n2),
    ensures
        n1 == n2,
{
    if has_pin_unknown(ranked, rules) {
        let i1 = choose|i: int|
            0 <= i < rules.len() && pin_unknown(ranked, rules, i) && rules[i].name == n1 && (forall|
                j: int,
            | 0 <= j < i ==> !pin_unknown(ranked, rules, j));
        let i2 = choose|i: int|
            0 <= i < rules.len() && pin_unknown(ranked, rules, i) && rules[i].name == n2 && (forall|
                j: int,
            | 0 <= j < i ==> !pin_unknown(ranked, rules, j));
        assert(i1 == i2);
    } else {
        let i1 = choose|i: int|
            0 <= i < rules.len() && feature_unknown(ranked, rules, i) && rules[i].name == n1 && (
            forall|j: int| 0 <= j < i ==> !feature_unknown(ranked, rules, j));
        let i2 = choose|i: int|
            0 <= i < rules.len() && feature_unknown(ranked, rules, i) && rules[i].name == n2 && (
            forall|j: int| 0 <= j < i ==> !feature_unknown(ranked, rules, j));
        assert(i1 == i2);
    }
}

/// An excluded package is never selected, whatever other rules name it
/// (ranked or force-included, pinned or given features).
pub proof fn lemma_exclude_dominates(
    ranked: Seq<RankedView>,
    rules: Seq<RuleView>,
    out: Seq<DepView>,
    i: int,
)
    requires
        resolves_to(ranked, rules, out),
        0 <= i < rules.len(),
        rules[i].action is Exclude,
    ensures
        forall|k: int| 0 <= k < out.len() ==> out[k].name != rules[i].name,
{
    let n = rules[i].name;
    let ex = excluded_names(rules);
    lemma_excluded_names(rules, i);
    lemma_resolved_dom(ranked, rules);
    if working_entries(ranked, rules).contains_key(n) {
        lemma_forced_names(ranked_entries(ranked).remove_keys(ex), rules, ex, n);
    }
    assert forall|k: int| 0 <= k < out.len() implies out[k].name != n by {
        assert(resolved_entries(ranked, rules).contains_key(out[k].name));
    }
}

/// A pin or feature rule on a package that neither the ranking nor any
/// force-include rule provides makes resolution fail.
pub proof fn lemma_unknown_target_fails(ranked: Seq<RankedView>, rules: Seq<RuleView>, i: int)
    requires
        0 <= i < rules.len(),
        rules[i].action is PinVersion || rules[i].action is AddFeature,
        forall|j: int| 0 <= j < ranked.len() ==> ranked[j].name != rules[i].name,
        forall|j: int|
            0 <= j < rules.len() && rules[j].action is ForceInclude ==> rules[j].name
                != rules[i].name,
    ensures
        !resolvable(ranked, rules),
{
    let n = rules[i].name;
    let ex = excluded_names(rules);
    let base = ranked_entries(ranked).remove_keys(ex);
    if working_entries(ranked, rules).contains_key(n) {
        lemma_forced_names(base, rules, ex, n);
        if base.contains_key(n) {
            lemma_ranked_names(ranked, n);
        }
    }
    if rules[i].action is PinVersion {
        assert(pin_unknown(ranked, rules, i));
    } else {
        assert(feature_unknown(ranked, rules, i));
    }
}

} // verus!
