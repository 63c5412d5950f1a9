use top_crates::manifest::{build_profiles, package_header, synthesize, with_disclaimer, DISCLAIMER};
use top_crates::model::{OverrideRule, Origin, RankedPackage, ResolvedDependency, RuleAction};
use top_crates::names::name_less;
use top_crates::resolve::{resolve, ResolveError};
use top_crates::rules::{load_rules, ConfigError};

fn ranked(name: &str, version: &str, rank: u64, features: &[&str]) -> RankedPackage {
    RankedPackage {
        name: name.to_string(),
        version: version.to_string(),
        rank,
        features: features.iter().map(|f| f.to_string()).collect(),
    }
}

fn rule(name: &str, action: RuleAction) -> OverrideRule {
    OverrideRule { name: name.to_string(), action }
}

fn exclude(name: &str) -> OverrideRule {
    rule(name, RuleAction::Exclude)
}

fn force(name: &str, version: &str) -> OverrideRule {
    rule(name, RuleAction::ForceInclude { version: version.to_string() })
}

fn pin(name: &str, version: &str) -> OverrideRule {
    rule(name, RuleAction::PinVersion { version: version.to_string() })
}

fn features(name: &str, fs: &[&str]) -> OverrideRule {
    rule(name, RuleAction::AddFeature { features: fs.iter().map(|f| f.to_string()).collect() })
}

fn names(v: &[ResolvedDependency]) -> Vec<String> {
    v.iter().map(|d| d.name.clone()).collect()
}

fn unknown_name(r: Result<Vec<ResolvedDependency>, ResolveError>) -> String {
    match r {
        Err(ResolveError::UnknownPackage(n)) => n,
        Ok(v) => panic!("expected a failure, got {:?}", names(&v)),
    }
}

#[test]
fn example_selection() {
    let ranking = vec![ranked("serde", "1.0.200", 1, &[]), ranked("rand", "0.8.5", 2, &[])];
    let rules = vec![exclude("rand"), force("regex", "1.0"), features("serde", &["derive"])];
    let out = resolve(&ranking, &rules).unwrap();
    assert_eq!(out.len(), 2);
    assert_eq!(out[0].name, "regex");
    assert_eq!(out[0].version, "1.0");
    assert_eq!(out[0].origin, Origin::Manual);
    assert!(out[0].features.is_empty());
    assert_eq!(out[1].name, "serde");
    assert_eq!(out[1].version, "1.0.200");
    assert_eq!(out[1].origin, Origin::Auto);
    assert_eq!(out[1].features, vec!["derive".to_string()]);
}

#[test]
fn resolving_twice_gives_identical_documents() {
    let ranking = vec![
        ranked("tokio", "1.37.0", 1, &["rt"]),
        ranked("anyhow", "1.0.82", 2, &[]),
        ranked("itertools", "0.12.1", 3, &[]),
    ];
    let rules = vec![pin("tokio", "1.36"), features("tokio", &["full"]), force("either", "1.11.0")];
    let a = resolve(&ranking, &rules).unwrap();
    let b = resolve(&ranking, &rules).unwrap();
    assert_eq!(names(&a), names(&b));
    let (ma, ia) = synthesize(&a);
    let (mb, ib) = synthesize(&b);
    assert_eq!(format!("{:?}", ma), format!("{:?}", mb));
    assert_eq!(format!("{:?}", ia), format!("{:?}", ib));
}

#[test]
fn selection_is_strictly_ascending() {
    let ranking = vec![
        ranked("zip", "0.6.6", 1, &[]),
        ranked("base64", "0.22.1", 2, &[]),
        ranked("Inflector", "0.11.4", 3, &[]),
        ranked("base64", "0.21.0", 4, &[]),
        ranked("mio", "0.8.11", 5, &[]),
    ];
    let rules = vec![force("aho-corasick", "1.1.3"), force("zip", "0.5.0")];
    let out = resolve(&ranking, &rules).unwrap();
    assert_eq!(names(&out), vec!["Inflector", "aho-corasick", "base64", "mio", "zip"]);
    for w in out.windows(2) {
        assert!(w[0].name < w[1].name);
    }
}

#[test]
fn first_ranked_occurrence_wins() {
    let ranking = vec![ranked("base64", "0.22.1", 1, &["std"]), ranked("base64", "0.13.0", 7, &[])];
    let out = resolve(&ranking, &vec![]).unwrap();
    assert_eq!(out.len(), 1);
    assert_eq!(out[0].version, "0.22.1");
    assert_eq!(out[0].features, vec!["std".to_string()]);
}

#[test]
fn force_include_keeps_ranked_entry() {
    let ranking = vec![ranked("zip", "0.6.6", 1, &[])];
    let out = resolve(&ranking, &vec![force("zip", "0.5.0")]).unwrap();
    assert_eq!(out.len(), 1);
    assert_eq!(out[0].version, "0.6.6");
    assert_eq!(out[0].origin, Origin::Auto);
}

#[test]
fn exclude_wins_over_every_other_rule() {
    let ranking = vec![ranked("rand", "0.8.5", 1, &[]), ranked("libc", "0.2.154", 2, &[])];
    let rules = vec![force("rand", "0.7.0"), exclude("rand")];
    let out = resolve(&ranking, &rules).unwrap();
    assert_eq!(names(&out), vec!["libc"]);

    let rules = vec![exclude("rand"), force("rand", "0.7.0"), force("rand", "0.6.0")];
    let out = resolve(&ranking, &rules).unwrap();
    assert_eq!(names(&out), vec!["libc"]);
}

#[test]
fn pin_on_excluded_package_fails() {
    let ranking = vec![ranked("rand", "0.8.5", 1, &[])];
    let rules = vec![pin("rand", "0.7.0"), exclude("rand")];
    assert_eq!(unknown_name(resolve(&ranking, &rules)), "rand");
}

#[test]
fn pin_on_unknown_package_fails() {
    let ranking = vec![ranked("serde", "1.0.200", 1, &[])];
    let rules = vec![pin("nonexistent", "1.0")];
    assert_eq!(unknown_name(resolve(&ranking, &rules)), "nonexistent");
}

#[test]
fn feature_on_unknown_package_fails() {
    let ranking = vec![ranked("serde", "1.0.200", 1, &[])];
    let rules = vec![features("ghost", &["x"])];
    assert_eq!(unknown_name(resolve(&ranking, &rules)), "ghost");
}

#[test]
fn unknown_pin_is_reported_before_unknown_feature() {
    let ranking = vec![ranked("serde", "1.0.200", 1, &[])];
    let rules = vec![features("first", &["x"]), pin("second", "1.0"), pin("third", "2.0")];
    assert_eq!(unknown_name(resolve(&ranking, &rules)), "second");
}

#[test]
fn pin_and_features_apply_to_manual_entries() {
    let rules = vec![
        force("regex", "1.0"),
        pin("regex", "1.10.4"),
        pin("regex", "1.10.5"),
        features("regex", &["unicode", "perf"]),
        features("regex", &["perf", "std"]),
    ];
    let out = resolve(&vec![], &rules).unwrap();
    assert_eq!(out.len(), 1);
    assert_eq!(out[0].version, "1.10.5");
    assert_eq!(out[0].origin, Origin::Manual);
    assert_eq!(out[0].features, vec!["unicode", "perf", "std"]);
}

#[test]
fn natural_features_are_kept_once() {
    let ranking = vec![ranked("serde", "1.0.200", 1, &["std", "derive", "std"])];
    let out = resolve(&ranking, &vec![features("serde", &["derive", "rc"])]).unwrap();
    assert_eq!(out[0].features, vec!["std", "derive", "rc"]);
}

#[test]
fn empty_inputs_give_empty_selection() {
    let out = resolve(&vec![], &vec![]).unwrap();
    assert!(out.is_empty());
    let (manifest, infos) = synthesize(&out);
    assert!(manifest.dependencies.is_empty());
    assert!(manifest.build_dependencies.is_empty());
    assert!(infos.is_empty());
}

#[test]
fn exclude_and_pin_conflict_at_load() {
    let rules = vec![force("regex", "1.0"), exclude("rand"), pin("rand", "0.8.5")];
    match load_rules(rules) {
        Err(ConfigError::Conflict(n)) => assert_eq!(n, "rand"),
        other => panic!("expected a conflict, got {:?}", other),
    }
}

#[test]
fn exclude_and_feature_conflict_at_load() {
    let rules = vec![features("tokio", &["full"]), exclude("tokio")];
    match load_rules(rules) {
        Err(ConfigError::Conflict(n)) => assert_eq!(n, "tokio"),
        other => panic!("expected a conflict, got {:?}", other),
    }
}

#[test]
fn consistent_rules_load_unchanged() {
    let rules = vec![exclude("rand"), exclude("rand"), force("regex", "1.0"), pin("regex", "1.10.0")];
    let loaded = load_rules(rules).unwrap();
    assert_eq!(loaded.len(), 4);
    assert_eq!(loaded[0].name, "rand");
    assert_eq!(loaded[3].name, "regex");
}

#[test]
fn both_tables_equal_and_infos_aligned() {
    let ranking = vec![
        ranked("serde-json", "1.0.117", 1, &[]),
        ranked("async-trait", "0.1.80", 2, &["x"]),
        ranked("libc", "0.2.154", 3, &[]),
    ];
    let out = resolve(&ranking, &vec![features("libc", &["extra_traits"])]).unwrap();
    let (manifest, infos) = synthesize(&out);
    assert_eq!(manifest.dependencies.len(), 3);
    assert_eq!(format!("{:?}", manifest.dependencies), format!("{:?}", manifest.build_dependencies));
    assert_eq!(infos.len(), 3);
    for (row, info) in manifest.dependencies.iter().zip(infos.iter()) {
        assert_eq!(row.name, info.name);
        assert_eq!(row.spec.version, info.version);
        assert_eq!(row.spec.features, info.features);
    }
    assert_eq!(manifest.dependencies[0].name, "async-trait");
    assert_eq!(manifest.dependencies[0].spec.features, vec!["x"]);
    assert_eq!(manifest.dependencies[1].spec.features, vec!["extra_traits"]);
    assert_eq!(infos[0].id, "async_trait");
    assert_eq!(infos[1].id, "libc");
    assert_eq!(infos[2].id, "serde_json");
}

#[test]
fn fixed_profile_table() {
    let p = build_profiles();
    assert_eq!(p.dev.codegen_units, 1);
    assert!(!p.dev.incremental);
    assert_eq!(p.dev.build_override.codegen_units, 1);
    assert!(p.dev.build_override.debug);
    assert_eq!(p.release.codegen_units, 1);
    assert!(!p.release.incremental);
    assert_eq!(p.release.build_override.codegen_units, 1);
    assert!(!p.release.build_override.debug);
}

#[test]
fn fixed_package_header() {
    let h = package_header();
    assert_eq!(h.name, "playground");
    assert_eq!(h.version, "0.0.1");
    assert_eq!(h.authors, vec!["The Rust Playground"]);
    assert_eq!(h.resolver, "2");
    let (manifest, _) = synthesize(&vec![]);
    assert_eq!(manifest.package.name, "playground");
    assert_eq!(manifest.profile, build_profiles());
}

#[test]
fn disclaimer_heads_manifest_text() {
    let text = with_disclaimer("[package]\nname = \"playground\"\n");
    assert!(text.starts_with("# This file is automatically @generated by the top-crates script.\n"));
    assert!(text.starts_with(DISCLAIMER));
    assert!(text.ends_with("[package]\nname = \"playground\"\n"));
    assert_eq!(text.len(), DISCLAIMER.len() + 30);
    assert_eq!(DISCLAIMER.lines().count(), 4);
}

#[test]
fn name_order_is_string_order() {
    assert!(name_less("a", "b"));
    assert!(name_less("ab", "abc"));
    assert!(!name_less("abc", "ab"));
    assert!(!name_less("same", "same"));
    assert!(name_less("Zed", "abc"));
    assert!(name_less("", "a"));
    assert!(!name_less("", ""));
    assert!(name_less("a-b", "a_b"));
    assert!(name_less("z", "é"));
}
