use mod_launcher::rules::{
    all_apply, applies, Clause, FeatureRequirements, FeatureSet, PlatformConstraint,
    PlatformContext, RuleAction,
};

fn platform(name: &str, arch: &str) -> PlatformContext {
    PlatformContext { name: name.to_string(), arch: arch.to_string() }
}

fn features(names: &[&str]) -> FeatureSet {
    let mut set = FeatureSet::new();
    for name in names {
        set.enable(name);
    }
    set
}

fn on_os(action: RuleAction, name: &str) -> Clause {
    Clause {
        action,
        features: None,
        platform: Some(PlatformConstraint { name: Some(name.to_string()), arch: None }),
    }
}

fn on_feature(action: RuleAction, name: &str, enabled: bool) -> Clause {
    let mut required = FeatureRequirements::new();
    required.require(name, enabled);
    Clause { action, features: Some(required), platform: None }
}

#[test]
fn feature_set_holds_what_was_enabled() {
    let mut set = FeatureSet::new();
    assert!(!set.contains("is_demo_user"));
    set.enable("is_demo_user");
    set.enable("has_custom_resolution");
    set.enable("is_demo_user");
    assert!(set.contains("is_demo_user"));
    assert!(set.contains("has_custom_resolution"));
    assert!(!set.contains("is_demo"));
    assert!(!set.contains(""));
}

#[test]
fn clause_without_conditions_follows_its_action() {
    let allow = Clause { action: RuleAction::Allow, features: None, platform: None };
    let deny = Clause { action: RuleAction::Deny, features: None, platform: None };
    assert!(allow.conditions_met(&platform("linux", "x86"), &features(&[])));
    assert!(applies(&allow, &platform("linux", "x86"), &features(&[])));
    assert!(!applies(&deny, &platform("linux", "x86"), &features(&[])));
}

#[test]
fn guard_needs_every_clause() {
    let guard = vec![on_os(RuleAction::Allow, "windows"), on_feature(RuleAction::Allow, "X", true)];
    assert!(all_apply(&guard, &platform("windows", "x86_64"), &features(&["X"])));
    assert!(!all_apply(&guard, &platform("windows", "x86_64"), &features(&[])));
    assert!(!all_apply(&guard, &platform("linux", "x86_64"), &features(&["X"])));
    assert!(!all_apply(&guard, &platform("linux", "x86_64"), &features(&[])));
}

#[test]
fn guard_without_clauses_passes() {
    let guard: Vec<Clause> = Vec::new();
    assert!(all_apply(&guard, &platform("osx", "arm64"), &features(&[])));
}

#[test]
fn deny_inverts_the_match() {
    let clause = on_os(RuleAction::Deny, "windows");
    assert!(!applies(&clause, &platform("windows", "x86_64"), &features(&[])));
    assert!(applies(&clause, &platform("linux", "x86_64"), &features(&[])));
    assert!(applies(&clause, &platform("osx", "arm64"), &features(&["X"])));
    assert!(applies(&clause, &platform("Windows", "x86_64"), &features(&[])));
}

#[test]
fn platform_constraint_checks_each_part_it_names() {
    let both = PlatformConstraint {
        name: Some("windows".to_string()),
        arch: Some("x86".to_string()),
    };
    assert!(both.satisfied_by(&platform("windows", "x86")));
    assert!(!both.satisfied_by(&platform("windows", "x86_64")));
    assert!(!both.satisfied_by(&platform("linux", "x86")));
    let arch_only = PlatformConstraint { name: None, arch: Some("x86".to_string()) };
    assert!(arch_only.satisfied_by(&platform("linux", "x86")));
    assert!(!arch_only.satisfied_by(&platform("linux", "arm64")));
    let any = PlatformConstraint { name: None, arch: None };
    assert!(any.satisfied_by(&platform("", "")));
}

#[test]
fn feature_requirement_asks_for_the_exact_state() {
    let wants_on = on_feature(RuleAction::Allow, "is_demo_user", true);
    let wants_off = on_feature(RuleAction::Allow, "is_demo_user", false);
    let here = platform("windows", "x86_64");
    assert!(applies(&wants_on, &here, &features(&["is_demo_user"])));
    assert!(!applies(&wants_on, &here, &features(&[])));
    assert!(applies(&wants_off, &here, &features(&[])));
    assert!(!applies(&wants_off, &here, &features(&["is_demo_user"])));
}

#[test]
fn feature_requirement_checks_every_entry() {
    let mut required = FeatureRequirements::new();
    required.require("a", true);
    required.require("b", false);
    assert!(required.satisfied_by(&features(&["a"])));
    assert!(required.satisfied_by(&features(&["a", "c"])));
    assert!(!required.satisfied_by(&features(&["a", "b"])));
    assert!(!required.satisfied_by(&features(&[])));
    assert!(FeatureRequirements::new().satisfied_by(&features(&["a"])));
}

#[test]
fn feature_requirement_keeps_the_last_state_asked() {
    let mut required = FeatureRequirements::new();
    required.require("a", true);
    required.require("a", false);
    assert!(required.satisfied_by(&features(&[])));
    assert!(!required.satisfied_by(&features(&["a"])));
}

#[test]
fn clause_with_features_and_platform_needs_both() {
    let mut required = FeatureRequirements::new();
    required.require("X", true);
    let clause = Clause {
        action: RuleAction::Allow,
        features: Some(required),
        platform: Some(PlatformConstraint { name: Some("osx".to_string()), arch: None }),
    };
    assert!(applies(&clause, &platform("osx", "arm64"), &features(&["X"])));
    assert!(!applies(&clause, &platform("osx", "arm64"), &features(&[])));
    assert!(!applies(&clause, &platform("linux", "arm64"), &features(&["X"])));
}
