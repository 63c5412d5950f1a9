use vstd::prelude::*;

use crate::model::{
    copy_strings, deps_view, ranking_view, rules_view, strings_view, ActionView, DepView, Origin,
    OverrideRule, RankedPackage, RankedView, ResolvedDependency, RuleAction, RuleView,
};
use crate::names::{
    lemma_name_lt_irreflexive, lemma_name_lt_total, lemma_name_lt_transitive, name_less, name_lt,
};

verus! {

/// Why a resolution failed.
#[derive(Clone, Debug)]
pub enum ResolveError {
    /// A pin or feature rule names a package that is not in the selection.
    UnknownPackage(String),
}

// ---------------------------------------------------------------------
// The meaning of a resolution, over views.
// ---------------------------------------------------------------------

/// A feature list with one more feature, kept at the end unless it is already there.
pub open spec fn feature_added(fs: Seq<Seq<char>>, f: Seq<char>) -> Seq<Seq<char>> {
    if fs.contains(f) {
        fs
    } else {
        fs.push(f)
    }
}

/// A feature list with each of `new` added in turn.
pub open spec fn features_added(fs: Seq<Seq<char>>, new: Seq<Seq<char>>) -> Seq<Seq<char>>
    decreases new.len(),
{
    if new.len() == 0 {
        fs
    } else {
        feature_added(features_added(fs, new.drop_last()), new.last())
    }
}

/// The entry that a ranked package contributes.
pub open spec fn auto_entry(p: RankedView) -> DepView {
    DepView {
        name: p.name,
        version: p.version,
        features: features_added(Seq::empty(), p.features),
        origin: Origin::Auto,
    }
}

/// The ranking as entries keyed by name; the first occurrence of a name wins.
pub open spec fn ranked_entries(ranked: Seq<RankedView>) -> Map<Seq<char>, DepView>
    decreases ranked.len(),
{
    if ranked.len() == 0 {
        Map::empty()
    } else {
        let m = ranked_entries(ranked.drop_last());
        let p = ranked.last();
        if m.contains_key(p.name) {
            m
        } else {
            m.insert(p.name, auto_entry(p))
        }
    }
}

/// The names that some exclude rule names.
pub open spec fn excluded_names(rules: Seq<RuleView>) -> Set<Seq<char>>
    decreases rules.len(),
{
    if rules.len() == 0 {
        Set::empty()
    } else {
        let s = excluded_names(rules.drop_last());
        match rules.last().action {
            ActionView::Exclude => s.insert(rules.last().name),
            _ => s,
        }
    }
}

/// Force-include rules applied in order: a name that is neither present nor
/// excluded is added as a manual entry.
pub open spec fn forced_entries(
    m: Map<Seq<char>, DepView>,
    rules: Seq<RuleView>,
    excluded: Set<Seq<char>>,
) -> Map<Seq<char>, DepView>
    decreases rules.len(),
{
    if rules.len() == 0 {
        m
    } else {
        let prev = forced_entries(m, rules.drop_last(), excluded);
        let r = rules.last();
        match r.action {
            ActionView::ForceInclude(v) => {
                if prev.contains_key(r.name) || excluded.contains(r.name) {
                    prev
                } else {
                    prev.insert(
                        r.name,
                        DepView { name: r.name, version: v, features: Seq::empty(), origin: Origin::Manual },
                    )
                }
            },
            _ => prev,
        }
    }
}

/// Pin rules applied in order to the entries they name.
pub open spec fn pinned_entries(m: Map<Seq<char>, DepView>, rules: Seq<RuleView>) -> Map<
    Seq<char>,
    DepView,
>
    decreases rules.len(),
{
    if rules.len() == 0 {
        m
    } else {
        let prev = pinned_entries(m, rules.drop_last());
        let r = rules.last();
        match r.action {
            ActionView::PinVersion(v) => {
                if prev.contains_key(r.name) {
                    prev.insert(r.name, DepView { version: v, ..prev[r.name] })
                } else {
                    prev
                }
            },
            _ => prev,
        }
    }
}

/// Feature rules applied in order to the entries they name.
pub open spec fn featured_entries(m: Map<Seq<char>, DepView>, rules: Seq<RuleView>) -> Map<
    Seq<char>,
    DepView,
>
    decreases rules.len(),
{
    if rules.len() == 0 {
        m
    } else {
        let prev = featured_entries(m, rules.drop_last());
        let r = rules.last();
        match r.action {
            ActionView::AddFeature(fs) => {
                if prev.contains_key(r.name) {
                    prev.insert(
                        r.name,
                        DepView { features: features_added(prev[r.name].features, fs), ..prev[r.name] },
                    )
                } else {
                    prev
                }
            },
            _ => prev,
        }
    }
}

/// The entries after exclusion and forced inclusion: the packages that pin and
/// feature rules may name.
pub open spec fn working_entries(ranked: Seq<RankedView>, rules: Seq<RuleView>) -> Map<
    Seq<char>,
    DepView,
> {
    let excluded = excluded_names(rules);
    forced_entries(ranked_entries(ranked).remove_keys(excluded), rules, excluded)
}

/// The entries of the final selection, keyed by name.
pub open spec fn resolved_entries(ranked: Seq<RankedView>, rules: Seq<RuleView>) -> Map<
    Seq<char>,
    DepView,
> {
    featured_entries(pinned_entries(working_entries(ranked, rules), rules), rules)
}

/// Rule `i` pins a package outside the working entries.
pub open spec fn pin_unknown(ranked: Seq<RankedView>, rules: Seq<RuleView>, i: int) -> bool {
    &&& rules[i].action is PinVersion
    &&& !working_entries(ranked, rules).contains_key(rules[i].name)
}

/// Rule `i` adds features to a package outside the working entries.
pub open spec fn feature_unknown(ranked: Seq<RankedView>, rules: Seq<RuleView>, i: int) -> bool {
    &&& rules[i].action is AddFeature
    &&& !working_entries(ranked, rules).contains_key(rules[i].name)
}

pub open spec fn has_pin_unknown(ranked: Seq<RankedView>, rules: Seq<RuleView>) -> bool {
    exists|i: int| 0 <= i < rules.len() && pin_unknown(ranked, rules, i)
}

pub open spec fn has_feature_unknown(ranked: Seq<RankedView>, rules: Seq<RuleView>) -> bool {
    exists|i: int| 0 <= i < rules.len() && feature_unknown(ranked, rules, i)
}

/// Resolution succeeds exactly when every pin and feature rule names a working entry.
pub open spec fn resolvable(ranked: Seq<RankedView>, rules: Seq<RuleView>) -> bool {
    !has_pin_unknown(ranked, rules) && !has_feature_unknown(ranked, rules)
}

/// The name that a failed resolution reports: that of the first pin rule on an
/// unknown package, or, with none, that of the first such feature rule.
pub open spec fn reported_unknown(ranked: Seq<RankedView>, rules: Seq<RuleView>, n: Seq<char>) -> bool {
    if has_pin_unknown(ranked, rules) {
        exists|i: int|
            0 <= i < rules.len() && pin_unknown(ranked, rules, i) && rules[i].name == n && (forall|
                j: int,
            | 0 <= j < i ==> !pin_unknown(ranked, rules, j))
    } else {
        exists|i: int|
            0 <= i < rules.len() && feature_unknown(ranked, rules, i) && rules[i].name == n && (
            forall|j: int| 0 <= j < i ==> !feature_unknown(ranked, rules, j))
    }
}

/// Strictly ascending by name.
pub open spec fn sorted_by_name(s: Seq<DepView>) -> bool {
    forall|i: int, j: int| 0 <= i < j < s.len() ==> name_lt(s[i].name, s[j].name)
}

/// The sequence holds exactly the entries of `m`.
pub open spec fn lists_entries(s: Seq<DepView>, m: Map<Seq<char>, DepView>) -> bool {
    &&& forall|i: int| 0 <= i < s.len() ==> #[trigger] m.contains_key(s[i].name) && m[s[i].name]
        == s[i]
    &&& forall|n: Seq<char>| #[trigger]
        m.contains_key(n) ==> exists|i: int| 0 <= i < s.len() && s[i].name == n
}

/// `out` is the resolution of `ranked` under `rules`.
pub open spec fn resolves_to(ranked: Seq<RankedView>, rules: Seq<RuleView>, out: Seq<DepView>) -> bool {
    sorted_by_name(out) && lists_entries(out, resolved_entries(ranked, rules))
}

// ---------------------------------------------------------------------
// The sorted working set.
// ---------------------------------------------------------------------

proof fn lemma_sorted_distinct(s: Seq<DepView>)
    requires
        sorted_by_name(s),
    ensures
        forall|i: int, j: int| 0 <= i < s.len() && 0 <= j < s.len() && i != j ==> s[i].name != s[j].name,
{
    assert forall|i: int, j: int| 0 <= i < s.len() && 0 <= j < s.len() && i != j implies s[i].name
        != s[j].name by {
        lemma_name_lt_irreflexive(s[i].name);
    }
}

/// Finds the entry with the given name.
fn position_of(v: &Vec<ResolvedDependency>, name: &String) -> (r: Option<usize>)
    ensures
        match r {
            Some(i) => i < v.len() && v@[i as int].name@ == name@,
            None => forall|i: int| 0 <= i < v.len() ==> v@[i].name@ != name@,
        },
{
    let mut i: usize = 0;
    while i < v.len()
        invariant
            i <= v.len(),
            forall|k: int| 0 <= k < i ==> v@[k].name@ != name@,
        decreases v.len() - i,
    {
        if v[i].name == *name {
            return Some(i);
        }
        i = i + 1;
    }
    None
}

/// Inserts an entry with a new name at its place in name order.
fn insert_entry(
    v: &mut Vec<ResolvedDependency>,
    d: ResolvedDependency,
    Ghost(m): Ghost<Map<Seq<char>, DepView>>,
)
    requires
        sorted_by_name(deps_view(old(v)@)),
        lists_entries(deps_view(old(v)@), m),
        !m.contains_key(d@.name),
    ensures
        sorted_by_name(deps_view(final(v)@)),
        lists_entries(deps_view(final(v)@), m.insert(d@.name, d@)),
{
    let ghost s = deps_view(v@);
    let mut p: usize = 0;
    while p < v.len() && name_less(v[p].name.as_str(), d.name.as_str())
        invariant
            p <= v.len(),
            s == deps_view(v@),
            forall|k: int| 0 <= k < p ==> name_lt(s[k].name, d@.name),
        decreases v.len() - p,
    {
        p = p + 1;
    }
    proof {
        assert forall|k: int| p <= k < s.len() implies name_lt(d@.name, s[k].name) by {
            assert(m.contains_key(s[p as int].name));
            lemma_name_lt_total(s[p as int].name, d@.name);
            if k > p {
                lemma_name_lt_transitive(d@.name, s[p as int].name, s[k].name);
            }
        }
    }
    v.insert(p, d);
    proof {
        let t = deps_view(v@);
        assert(t =~= s.insert(p as int, d@));
        let m2 = m.insert(d@.name, d@);
        assert forall|i: int, j: int| 0 <= i < j < t.len() implies name_lt(t[i].name, t[j].name) by {
            if i < p && j > p {
                assert(name_lt(s[i].name, d@.name));
                assert(name_lt(d@.name, s[j - 1].name));
                lemma_name_lt_transitive(s[i].name, d@.name, s[j - 1].name);
            }
        }
        assert forall|i: int| 0 <= i < t.len() implies #[trigger] m2.contains_key(t[i].name)
            && m2[t[i].name] == t[i] by {
            if i < p {
                assert(m.contains_key(s[i].name));
            } else if i > p {
                assert(m.contains_key(s[i - 1].name));
            }
        }
        assert forall|n: Seq<char>| #[trigger] m2.contains_key(n) implies exists|i: int|
            0 <= i < t.len() && t[i].name == n by {
            if n == d@.name {
                assert(t[p as int].name == n);
            } else {
                assert(m.contains_key(n));
                let k = choose|k: int| 0 <= k < s.len() && s[k].name == n;
                if k < p {
                    assert(t[k].name == n);
                } else {
                    assert(t[k + 1].name == n);
                }
            }
        }
    }
}

/// Removes the entry at `i`.
fn remove_entry(
    v: &mut Vec<ResolvedDependency>,
    i: usize,
    Ghost(m): Ghost<Map<Seq<char>, DepView>>,
)
    requires
        i < old(v).len(),
        sorted_by_name(deps_view(old(v)@)),
        lists_entries(deps_view(old(v)@), m),
    ensures
        sorted_by_name(deps_view(final(v)@)),
        lists_entries(deps_view(final(v)@), m.remove(old(v)@[i as int].name@)),
{
    let ghost s = deps_view(v@);
    let ghost n = s[i as int].name;
    proof {
        lemma_sorted_distinct(s);
    }
    v.remove(i);
    proof {
        let t = deps_view(v@);
        assert(t =~= s.remove(i as int));
        let m2 = m.remove(n);
        assert forall|k: int| 0 <= k < t.len() implies #[trigger] m2.contains_key(t[k].name)
            && m2[t[k].name] == t[k] by {
            if k < i {
                assert(m.contains_key(s[k].name));
            } else {
                assert(m.contains_key(s[k + 1].name));
            }
        }
        assert forall|x: Seq<char>| #[trigger] m2.contains_key(x) implies exists|k: int|
            0 <= k < t.len() && t[k].name == x by {
            assert(m.contains_key(x));
            let k = choose|k: int| 0 <= k < s.len() && s[k].name == x;
            if k < i {
                assert(t[k].name == x);
            } else {
                assert(t[k - 1].name == x);
            }
        }
    }
}

/// Replaces the entry at `i` by one of the same name.
fn replace_entry(
    v: &mut Vec<ResolvedDependency>,
    i: usize,
    d: ResolvedDependency,
    Ghost(m): Ghost<Map<Seq<char>, DepView>>,
)
    requires
        i < old(v).len(),
        d@.name == old(v)@[i as int].name@,
        sorted_by_name(deps_view(old(v)@)),
        lists_entries(deps_view(old(v)@), m),
    ensures
        sorted_by_name(deps_view(final(v)@)),
        lists_entries(deps_view(final(v)@), m.insert(d@.name, d@)),
{
    let ghost s = deps_view(v@);
    proof {
        lemma_sorted_distinct(s);
    }
    v.set(i, d);
    proof {
        let t = deps_view(v@);
        assert(t =~= s.update(i as int, d@));
        let m2 = m.insert(d@.name, d@);
        assert forall|a: int, b: int| 0 <= a < b < t.len() implies name_lt(t[a].name, t[b].name) by {
            assert(t[a].name == s[a].name);
            assert(t[b].name == s[b].name);
        }
        assert forall|k: int| 0 <= k < t.len() implies #[trigger] m2.contains_key(t[k].name)
            && m2[t[k].name] == t[k] by {
            assert(m.contains_key(s[k].name));
            if k != i {
                assert(s[k].name != s[i as int].name);
            }
        }
        assert forall|x: Seq<char>| #[trigger] m2.contains_key(x) implies exists|k: int|
            0 <= k < t.len() && t[k].name == x by {
            if x != d@.name {
                assert(m.contains_key(x));
                let k = choose|k: int| 0 <= k < s.len() && s[k].name == x;
                assert(t[k].name == x);
            } else {
                assert(t[i as int].name == x);
            }
        }
    }
}

// ---------------------------------------------------------------------
// Resolution, step by step.
// ---------------------------------------------------------------------

/// Adds a feature unless the list already has it.
fn add_feature(fs: &mut Vec<String>, f: &String)
    ensures
        strings_view(final(fs)@) == feature_added(strings_view(old(fs)@), f@),
{
    let ghost s0 = strings_view(fs@);
    let mut i: usize = 0;
    while i < fs.len()
        invariant
            i <= fs.len(),
            s0 == strings_view(fs@),
            forall|k: int| 0 <= k < i ==> s0[k] != f@,
        decreases fs.len() - i,
    {
        if fs[i] == *f {
            assert(s0[i as int] == f@);
            return;
        }
        i = i + 1;
    }
    fs.push(f.clone());
    assert(strings_view(fs@) =~= s0.push(f@));
}

/// Adds each of `new` in turn.
fn add_features(fs: &mut Vec<String>, new: &Vec<String>)
    ensures
        strings_view(final(fs)@) == features_added(strings_view(old(fs)@), strings_view(new@)),
{
    let ghost s0 = strings_view(fs@);
    let ghost nv = strings_view(new@);
    let mut i: usize = 0;
    assert(nv.take(0) =~= Seq::<Seq<char>>::empty());
    while i < new.len()
        invariant
            i <= new.len(),
            nv == strings_view(new@),
            strings_view(fs@) == features_added(s0, nv.take(i as int)),
        decreases new.len() - i,
    {
        add_feature(fs, &new[i]);
        assert(nv.take(i + 1).drop_last() =~= nv.take(i as int));
        i = i + 1;
    }
    assert(nv.take(new.len() as int) =~= nv);
}

/// The entries of the ranking, the first occurrence of each name kept.
fn entries_from_ranking(ranked: &Vec<RankedPackage>) -> (v: Vec<ResolvedDependency>)
    ensures
        sorted_by_name(deps_view(v@)),
        lists_entries(deps_view(v@), ranked_entries(ranking_view(ranked@))),
{
    let ghost rv = ranking_view(ranked@);
    let mut v: Vec<ResolvedDependency> = Vec::new();
    let mut i: usize = 0;
    assert(rv.take(0) =~= Seq::<RankedView>::empty());
    assert(deps_view(v@) =~= Seq::<DepView>::empty());
    while i < ranked.len()
        invariant
            i <= ranked.len(),
            rv == ranking_view(ranked@),
            sorted_by_name(deps_view(v@)),
            lists_entries(deps_view(v@), ranked_entries(rv.take(i as int))),
        decreases ranked.len() - i,
    {
        let ghost m = ranked_entries(rv.take(i as int));
        assert(rv.take(i + 1).drop_last() =~= rv.take(i as int));
        assert(rv.take(i + 1).last() == ranked@[i as int]@);
        let p = &ranked[i];
        match position_of(&v, &p.name) {
            Some(k) => {
                assert(m.contains_key(deps_view(v@)[k as int].name));
            },
            None => {
                let mut features: Vec<String> = Vec::new();
                assert(strings_view(features@) =~= Seq::<Seq<char>>::empty());
                add_features(&mut features, &p.features);
                let d = ResolvedDependency {
                    name: p.name.clone(),
                    version: p.version.clone(),
                    features,
                    origin: Origin::Auto,
                };
                assert(d@ == auto_entry(p@));
                insert_entry(&mut v, d, Ghost(m));
            },
        }
        i = i + 1;
    }
    assert(rv.take(ranked.len() as int) =~= rv);
    v
}

/// Whether some exclude rule names the package.
fn is_excluded(rules: &Vec<OverrideRule>, name: &String) -> (r: bool)
    ensures
        r == excluded_names(rules_view(rules@)).contains(name@),
{
    let ghost rv = rules_view(rules@);
    let mut found = false;
    let mut i: usize = 0;
    assert(rv.take(0) =~= Seq::<RuleView>::empty());
    while i < rules.len()
        invariant
            i <= rules.len(),
            rv == rules_view(rules@),
            found == excluded_names(rv.take(i as int)).contains(name@),
        decreases rules.len() - i,
    {
        assert(rv.take(i + 1).drop_last() =~= rv.take(i as int));
        assert(rv.take(i + 1).last() == rules@[i as int]@);
        if let RuleAction::Exclude = rules[i].action {
            if rules[i].name == *name {
                found = true;
            }
        }
        i = i + 1;
    }
    assert(rv.take(rules.len() as int) =~= rv);
    found
}

/// Removes every entry that an exclude rule names.
fn apply_exclusions(
    v: &mut Vec<ResolvedDependency>,
    rules: &Vec<OverrideRule>,
    Ghost(base): Ghost<Map<Seq<char>, DepView>>,
)
    requires
        sorted_by_name(deps_view(old(v)@)),
        lists_entries(deps_view(old(v)@), base),
    ensures
        sorted_by_name(deps_view(final(v)@)),
        lists_entries(
            deps_view(final(v)@),
            base.remove_keys(excluded_names(rules_view(rules@))),
        ),
{
    let ghost rv = rules_view(rules@);
    let mut i: usize = 0;
    assert(rv.take(0) =~= Seq::<RuleView>::empty());
    assert(base.remove_keys(Set::empty()) =~= base);
    while i < rules.len()
        invariant
            i <= rules.len(),
            rv == rules_view(rules@),
            sorted_by_name(deps_view(v@)),
            lists_entries(deps_view(v@), base.remove_keys(excluded_names(rv.take(i as int)))),
        decreases rules.len() - i,
    {
        let ghost m = base.remove_keys(excluded_names(rv.take(i as int)));
        assert(rv.take(i + 1).drop_last() =~= rv.take(i as int));
        assert(rv.take(i + 1).last() == rules@[i as int]@);
        let r = &rules[i];
        if let RuleAction::Exclude = r.action {
            let ghost m2 = base.remove_keys(excluded_names(rv.take(i + 1)));
            match position_of(v, &r.name) {
                Some(k) => {
                    remove_entry(v, k, Ghost(m));
                    assert(m.remove(r.name@) =~= m2);
                },
                None => {
                    proof {
                        if m.contains_key(r.name@) {
                            let k = choose|k: int|
                                0 <= k < deps_view(v@).len() && deps_view(v@)[k].name == r.name@;
                            assert(v@[k].name@ == r.name@);
                        }
                    }
                    assert(m =~= m2);
                },
            }
        }
        i = i + 1;
    }
    assert(rv.take(rules.len() as int) =~= rv);
}

/// Adds a manual entry for each force-include rule whose package is neither
/// present nor excluded.
fn apply_inclusions(
    v: &mut Vec<ResolvedDependency>,
    rules: &Vec<OverrideRule>,
    Ghost(base): Ghost<Map<Seq<char>, DepView>>,
)
    requires
        sorted_by_name(deps_view(old(v)@)),
        lists_entries(deps_view(old(v)@), base),
    ensures
        sorted_by_name(deps_view(final(v)@)),
        lists_entries(
            deps_view(final(v)@),
            forced_entries(base, rules_view(rules@), excluded_names(rules_view(rules@))),
        ),
{
    let ghost rv = rules_view(rules@);
    let ghost ex = excluded_names(rv);
    let mut i: usize = 0;
    assert(rv.take(0) =~= Seq::<RuleView>::empty());
    while i < rules.len()
        invariant
            i <= rules.len(),
            rv == rules_view(rules@),
            ex == excluded_names(rv),
            sorted_by_name(deps_view(v@)),
            lists_entries(deps_view(v@), forced_entries(base, rv.take(i as int), ex)),
        decreases rules.len() - i,
    {
        let ghost m = forced_entries(base, rv.take(i as int), ex);
        assert(rv.take(i + 1).drop_last() =~= rv.take(i as int));
        assert(rv.take(i + 1).last() == rules@[i as int]@);
        let r = &rules[i];
        if let RuleAction::ForceInclude { version } = &r.action {
            match position_of(v, &r.name) {
                Some(k) => {
                    assert(m.contains_key(deps_view(v@)[k as int].name));
                },
                None => {
                    if !is_excluded(rules, &r.name) {
                        let d = ResolvedDependency {
                            name: r.name.clone(),
                            version: version.clone(),
                            features: Vec::new(),
                            origin: Origin::Manual,
                        };
                        assert(strings_view(d.features@) =~= Seq::<Seq<char>>::empty());
                        insert_entry(v, d, Ghost(m));
                    }
                },
            }
        }
        i = i + 1;
    }
    assert(rv.take(rules.len() as int) =~= rv);
}

/// Applies the pin rules, or reports the first that names an unknown package.
fn apply_pins(
    v: &mut Vec<ResolvedDependency>,
    ranked: &Vec<RankedPackage>,
    rules: &Vec<OverrideRule>,
) -> (r: Result<(), ResolveError>)
    requires
        sorted_by_name(deps_view(old(v)@)),
        lists_entries(
            deps_view(old(v)@),
            working_entries(ranking_view(ranked@), rules_view(rules@)),
        ),
    ensures
        r is Ok <==> !has_pin_unknown(ranking_view(ranked@), rules_view(rules@)),
        match r {
            Ok(_) => {
                &&& sorted_by_name(deps_view(final(v)@))
                &&& lists_entries(
                    deps_view(final(v)@),
                    pinned_entries(
                        working_entries(ranking_view(ranked@), rules_view(rules@)),
                        rules_view(rules@),
                    ),
                )
                &&& pinned_entries(
                    working_entries(ranking_view(ranked@), rules_view(rules@)),
                    rules_view(rules@),
                ).dom() == working_entries(ranking_view(ranked@), rules_view(rules@)).dom()
            },
            Err(ResolveError::UnknownPackage(n)) => reported_unknown(
                ranking_view(ranked@),
                rules_view(rules@),
                n@,
            ),
        },
{
    let ghost rk = ranking_view(ranked@);
    let ghost rv = rules_view(rules@);
    let ghost w = working_entries(rk, rv);
    let mut i: usize = 0;
    assert(rv.take(0) =~= Seq::<RuleView>::empty());
    while i < rules.len()
        invariant
            i <= rules.len(),
            rk == ranking_view(ranked@),
            rv == rules_view(rules@),
            w == working_entries(rk, rv),
            sorted_by_name(deps_view(v@)),
            lists_entries(deps_view(v@), pinned_entries(w, rv.take(i as int))),
            pinned_entries(w, rv.take(i as int)).dom() == w.dom(),
            forall|k: int| 0 <= k < i ==> !pin_unknown(rk, rv, k),
        decreases rules.len() - i,
    {
        let ghost m = pinned_entries(w, rv.take(i as int));
        assert(rv.take(i + 1).drop_last() =~= rv.take(i as int));
        assert(rv.take(i + 1).last() == rules@[i as int]@);
        let r = &rules[i];
        if let RuleAction::PinVersion { version } = &r.action {
            match position_of(v, &r.name) {
                Some(k) => {
                    let ghost s = deps_view(v@);
                    assert(m.contains_key(s[k as int].name));
                    let d = ResolvedDependency {
                        name: v[k].name.clone(),
                        version: version.clone(),
                        features: copy_strings(&v[k].features),
                        origin: v[k].origin,
                    };
                    assert(d@ == DepView { version: version@, ..m[r.name@] });
                    replace_entry(v, k, d, Ghost(m));
                    assert(m.insert(r.name@, d@).dom() =~= w.dom());
                },
                None => {
                    proof {
                        if m.contains_key(r.name@) {
                            let k = choose|k: int|
                                0 <= k < deps_view(v@).len() && deps_view(v@)[k].name == r.name@;
                            assert(v@[k].name@ == r.name@);
                        }
                    }
                    assert(pin_unknown(rk, rv, i as int));
                    return Err(ResolveError::UnknownPackage(r.name.clone()));
                },
            }
        }
        i = i + 1;
    }
    assert(rv.take(rules.len() as int) =~= rv);
    Ok(())
}

/// Applies the feature rules, or reports the first that names an unknown package.
fn apply_features(
    v: &mut Vec<ResolvedDependency>,
    ranked: &Vec<RankedPackage>,
    rules: &Vec<OverrideRule>,
) -> (r: Result<(), ResolveError>)
    requires
        !has_pin_unknown(ranking_view(ranked@), rules_view(rules@)),
        sorted_by_name(deps_view(old(v)@)),
        lists_entries(
            deps_view(old(v)@),
            pinned_entries(
                working_entries(ranking_view(ranked@), rules_view(rules@)),
                rules_view(rules@),
            ),
        ),
        pinned_entries(
            working_entries(ranking_view(ranked@), rules_view(rules@)),
            rules_view(rules@),
        ).dom() == working_entries(ranking_view(ranked@), rules_view(rules@)).dom(),
    ensures
        r is Ok <==> !has_feature_unknown(ranking_view(ranked@), rules_view(rules@)),
        match r {
            Ok(_) => {
                &&& sorted_by_name(deps_view(final(v)@))
                &&& lists_entries(
                    deps_view(final(v)@),
                    resolved_entries(ranking_view(ranked@), rules_view(rules@)),
                )
            },
            Err(ResolveError::UnknownPackage(n)) => reported_unknown(
                ranking_view(ranked@),
                rules_view(rules@),
                n@,
            ),
        },
{
    let ghost rk = ranking_view(ranked@);
    let ghost rv = rules_view(rules@);
    let ghost w = working_entries(rk, rv);
    let ghost p = pinned_entries(w, rv);
    let mut i: usize = 0;
    assert(rv.take(0) =~= Seq::<RuleView>::empty());
    while i < rules.len()
        invariant
            i <= rules.len(),
            rk == ranking_view(ranked@),
            rv == rules_view(rules@),
            w == working_entries(rk, rv),
            p == pinned_entries(w, rv),
            p.dom() == w.dom(),
            !has_pin_unknown(rk, rv),
            sorted_by_name(deps_view(v@)),
            lists_entries(deps_view(v@), featured_entries(p, rv.take(i as int))),
            featured_entries(p, rv.take(i as int)).dom() == w.dom(),
            forall|k: int| 0 <= k < i ==> !feature_unknown(rk, rv, k),
        decreases rules.len() - i,
    {
        let ghost m = featured_entries(p, rv.take(i as int));
        assert(rv.take(i + 1).drop_last() =~= rv.take(i as int));
        assert(rv.take(i + 1).last() == rules@[i as int]@);
        let r = &rules[i];
        if let RuleAction::AddFeature { features } = &r.action {
            match position_of(v, &r.name) {
                Some(k) => {
                    let ghost s = deps_view(v@);
                    assert(m.contains_key(s[k as int].name));
                    let mut fs = copy_strings(&v[k].features);
                    add_features(&mut fs, features);
                    let d = ResolvedDependency {
                        name: v[k].name.clone(),
                        version: v[k].version.clone(),
                        features: fs,
                        origin: v[k].origin,
                    };
                    assert(d@ == DepView {
                        features: features_added(m[r.name@].features, strings_view(features@)),
                        ..m[r.name@]
                    });
                    replace_entry(v, k, d, Ghost(m));
                    assert(m.insert(r.name@, d@).dom() =~= w.dom());
                },
                None => {
                    proof {
                        if m.contains_key(r.name@) {
                            let k = choose|k: int|
                                0 <= k < deps_view(v@).len() && deps_view(v@)[k].name == r.name@;
                            assert(v@[k].name@ == r.name@);
                        }
                    }
                    assert(feature_unknown(rk, rv, i as int));
                    return Err(ResolveError::UnknownPackage(r.name.clone()));
                },
            }
        }
        i = i + 1;
    }
    assert(rv.take(rules.len() as int) =~= rv);
    Ok(())
}

/// Merges the ranking with the override rules into the final selection:
/// ranked packages (first occurrence of a name), minus every excluded name,
/// plus force-included packages, with pins and added features applied, in
/// ascending name order. Fails on the first pin rule, else the first feature
/// rule, that names a package outside the selection.
pub fn resolve(ranked: &Vec<RankedPackage>, rules: &Vec<OverrideRule>) -> (r: Result<
    Vec<ResolvedDependency>,
    ResolveError,
>)
    ensures
        r is Ok <==> resolvable(ranking_view(ranked@), rules_view(rules@)),
        match r {
            Ok(v) => resolves_to(ranking_view(ranked@), rules_view(rules@), deps_view(v@)),
            Err(ResolveError::UnknownPackage(n)) => reported_unknown(
                ranking_view(ranked@),
                rules_view(rules@),
                n@,
            ),
        },
{
    let ghost rk = ranking_view(ranked@);
    let ghost rv = rules_view(rules@);
    let mut v = entries_from_ranking(ranked);
    apply_exclusions(&mut v, rules, Ghost(ranked_entries(rk)));
    apply_inclusions(&mut v, rules, Ghost(ranked_entries(rk).remove_keys(excluded_names(rv))));
    match apply_pins(&mut v, ranked, rules) {
        Ok(_) => {},
        Err(e) => {
            return Err(e);
        },
    }
    match apply_features(&mut v, ranked, rules) {
        Ok(_) => Ok(v),
        Err(e) => Err(e),
    }
}

} // verus!
