//! Conditional clauses over the platform and the enabled features.

use crate::text::{distinct_keys, keyed, lemma_keyed_at, lemma_keyed_push, lemma_keyed_update, str_eq};
use vstd::prelude::*;

verus! {

/// The platform a run takes place on.
pub struct PlatformContext {
    pub name: String,
    pub arch: String,
}

/// What a `PlatformContext` stands for.
pub struct PlatformModel {
    pub name: Seq<char>,
    pub arch: Seq<char>,
}

impl View for PlatformContext {
    type V = PlatformModel;

    open spec fn view(&self) -> PlatformModel {
        PlatformModel { name: self.name@, arch: self.arch@ }
    }
}

/// The names of the features that are enabled for a run. No name is held
/// twice.
pub struct FeatureSet {
    names: Vec<String>,
}

impl View for FeatureSet {
    type V = Set<Seq<char>>;

    closed spec fn view(&self) -> Set<Seq<char>> {
        Set::new(|name: Seq<char>| self.names.deep_view().contains(name))
    }
}

impl FeatureSet {
    #[verifier::type_invariant]
    spec fn well_formed(self) -> bool {
        distinct_keys(self.names.deep_view())
    }

    /// The set with no feature enabled.
    pub fn new() -> (features: FeatureSet)
        ensures
            features@ == Set::<Seq<char>>::empty(),
    {
        let features = FeatureSet { names: Vec::new() };
        assert(features@ =~= Set::<Seq<char>>::empty());
        features
    }

    /// Whether the feature `name` is enabled.
    pub fn contains(&self, name: &str) -> (found: bool)
        ensures
            found == self@.contains(name@),
    {
        let mut i: usize = 0;
        while i < self.names.len()
            invariant
                i <= self.names.len(),
                forall|k: int| 0 <= k < i ==> self.names.deep_view()[k] != name@,
            decreases self.names.len() - i,
        {
            if str_eq(self.names[i].as_str(), name) {
                assert(self.names.deep_view()[i as int] == name@);
                return true;
            }
            i = i + 1;
        }
        false
    }

    /// Enables the feature `name`; a feature that is enabled already stays so.
    pub fn enable(&mut self, name: &str)
        ensures
            final(self)@ == old(self)@.insert(name@),
    {
        proof {
            use_type_invariant(&*self);
        }
        if !self.contains(name) {
            let ghost before = self.names.deep_view();
            // The names are taken out while they grow, so that the set is
            // never seen half changed.
            let mut names: Vec<String> = Vec::new();
            core::mem::swap(&mut self.names, &mut names);
            names.push(name.to_owned());
            proof {
                assert(names.deep_view() =~= before.push(name@));
                assert forall|i: int| 0 <= i < before.len() implies before[i] != name@ by {
                    if before[i] == name@ {
                        assert(before.contains(name@));
                    }
                }
            }
            core::mem::swap(&mut self.names, &mut names);
            assert(self@ =~= old(self)@.insert(name@)) by {
                assert forall|n: Seq<char>| self@.contains(n) == old(self)@.insert(name@).contains(
                    n,
                ) by {
                    if before.push(name@).contains(n) {
                        let i = choose|i: int|
                            0 <= i < before.push(name@).len() && before.push(name@)[i] == n;
                        if i < before.len() {
                            assert(before[i] == n);
                        }
                    }
                    if before.contains(n) {
                        let i = choose|i: int| 0 <= i < before.len() && before[i] == n;
                        assert(before.push(name@)[i] == n);
                    }
                    if n == name@ {
                        assert(before.push(name@)[before.len() as int] == n);
                    }
                }
            }
        } else {
            assert(self@ =~= old(self)@.insert(name@));
        }
    }
}

/// One entry of a clause's feature requirement: the feature `name` must be
/// enabled (`enabled` is true) or must be absent (`enabled` is false).
pub struct FeatureRequirement {
    pub name: String,
    pub enabled: bool,
}

/// The feature names of the entries, in their order.
pub open spec fn requirement_names(entries: Seq<FeatureRequirement>) -> Seq<Seq<char>> {
    Seq::new(entries.len(), |i: int| entries[i].name@)
}

/// The required states of the entries, in their order.
pub open spec fn requirement_states(entries: Seq<FeatureRequirement>) -> Seq<bool> {
    Seq::new(entries.len(), |i: int| entries[i].enabled)
}

/// The states that a clause requires of features, by feature name. No name
/// has two entries.
pub struct FeatureRequirements {
    entries: Vec<FeatureRequirement>,
}

impl View for FeatureRequirements {
    type V = Map<Seq<char>, bool>;

    closed spec fn view(&self) -> Map<Seq<char>, bool> {
        keyed(requirement_names(self.entries@), requirement_states(self.entries@))
    }
}

/// Whether every feature that `required` names is in the state it asks for:
/// enabled where it maps to true, absent where it maps to false.
pub open spec fn features_satisfied(required: Map<Seq<char>, bool>, enabled: Set<Seq<char>>) -> bool {
    forall|name: Seq<char>| #[trigger]
        required.contains_key(name) ==> enabled.contains(name) == required[name]
}

impl FeatureRequirements {
    #[verifier::type_invariant]
    spec fn well_formed(self) -> bool {
        distinct_keys(requirement_names(self.entries@))
    }

    /// The requirement that asks nothing.
    pub fn new() -> (required: FeatureRequirements)
        ensures
            required@ == Map::<Seq<char>, bool>::empty(),
    {
        let required = FeatureRequirements { entries: Vec::new() };
        assert(required@ =~= Map::<Seq<char>, bool>::empty());
        required
    }

    /// Asks that the feature `name` be in the state `enabled`. A state asked
    /// of the same feature before is replaced.
    pub fn require(&mut self, name: &str, enabled: bool)
        ensures
            final(self)@ == old(self)@.insert(name@, enabled),
    {
        proof {
            use_type_invariant(&*self);
        }
        let ghost names = requirement_names(self.entries@);
        let ghost states = requirement_states(self.entries@);
        let mut at: usize = 0;
        while at < self.entries.len()
            invariant
                at <= self.entries.len(),
                names == requirement_names(self.entries@),
                forall|k: int| 0 <= k < at ==> names[k] != name@,
            ensures
                at < self.entries.len() ==> names[at as int] == name@,
            decreases self.entries.len() - at,
        {
            if str_eq(self.entries[at].name.as_str(), name) {
                assert(names[at as int] == name@);
                break;
            }
            at = at + 1;
        }
        // The entries are taken out while they change, so that the
        // requirement is never seen half changed.
        let mut entries: Vec<FeatureRequirement> = Vec::new();
        core::mem::swap(&mut self.entries, &mut entries);
        let entry = FeatureRequirement { name: name.to_owned(), enabled };
        if at < entries.len() {
            entries.set(at, entry);
            proof {
                assert(requirement_names(entries@) =~= names);
                assert(requirement_states(entries@) =~= states.update(at as int, enabled));
                lemma_keyed_update(names, states, at as int, enabled);
            }
        } else {
            entries.push(entry);
            proof {
                assert(requirement_names(entries@) =~= names.push(name@));
                assert(requirement_states(entries@) =~= states.push(enabled));
                lemma_keyed_push(names, states, name@, enabled);
            }
        }
        core::mem::swap(&mut self.entries, &mut entries);
    }

    /// Whether the enabled features are in the states that are asked of them.
    pub fn satisfied_by(&self, features: &FeatureSet) -> (met: bool)
        ensures
            met == features_satisfied(self@, features@),
    {
        proof {
            use_type_invariant(self);
        }
        let ghost names = requirement_names(self.entries@);
        let ghost states = requirement_states(self.entries@);
        let mut i: usize = 0;
        while i < self.entries.len()
            invariant
                i <= self.entries.len(),
                names == requirement_names(self.entries@),
                states == requirement_states(self.entries@),
                distinct_keys(names),
                forall|k: int| 0 <= k < i ==> features@.contains(names[k]) == states[k],
            decreases self.entries.len() - i,
        {
            let entry = &self.entries[i];
            if features.contains(entry.name.as_str()) != entry.enabled {
                proof {
                    lemma_keyed_at(names, states, i as int);
                    assert(self@.contains_key(names[i as int]));
                }
                return false;
            }
            i = i + 1;
        }
        proof {
            assert forall|name: Seq<char>| #[trigger] self@.contains_key(name) implies features@.contains(
                name,
            ) == self@[name] by {
                let k = choose|k: int| 0 <= k < names.len() && names[k] == name;
                lemma_keyed_at(names, states, k);
            }
        }
        true
    }
}

/// What a clause asks of the platform. A part that is `None` accepts any
/// value.
pub struct PlatformConstraint {
    pub name: Option<String>,
    pub arch: Option<String>,
}

/// What a `PlatformConstraint` stands for.
pub struct PlatformConstraintModel {
    pub name: Option<Seq<char>>,
    pub arch: Option<Seq<char>>,
}

impl View for PlatformConstraint {
    type V = PlatformConstraintModel;

    open spec fn view(&self) -> PlatformConstraintModel {
        PlatformConstraintModel {
            name: match self.name {
                Some(name) => Some(name@),
                None => None,
            },
            arch: match self.arch {
                Some(arch) => Some(arch@),
                None => None,
            },
        }
    }
}

/// Whether each part that the constraint names equals that part of the
/// platform.
pub open spec fn platform_satisfied(
    constraint: PlatformConstraintModel,
    platform: PlatformModel,
) -> bool {
    &&& constraint.name matches Some(name) ==> name == platform.name
    &&& constraint.arch matches Some(arch) ==> arch == platform.arch
}

impl PlatformConstraint {
    /// Whether the platform is one that the constraint accepts.
    pub fn satisfied_by(&self, platform: &PlatformContext) -> (met: bool)
        ensures
            met == platform_satisfied(self@, platform@),
    {
        let name_met = match &self.name {
            Some(name) => str_eq(name.as_str(), platform.name.as_str()),
            None => true,
        };
        let arch_met = match &self.arch {
            Some(arch) => str_eq(arch.as_str(), platform.arch.as_str()),
            None => true,
        };
        name_met && arch_met
    }
}

/// What a clause does with a run that meets its conditions: `Allow` lets the
/// guarded value through for such a run, `Deny` for every other run.
#[derive(Clone, Copy, Debug, PartialEq, Eq, Structural)]
pub enum RuleAction {
    Allow,
    Deny,
}

/// One condition on a guarded value.
pub struct Clause {
    pub action: RuleAction,
    pub features: Option<FeatureRequirements>,
    pub platform: Option<PlatformConstraint>,
}

/// What a `Clause` stands for.
pub struct ClauseModel {
    pub action: RuleAction,
    pub features: Option<Map<Seq<char>, bool>>,
    pub platform: Option<PlatformConstraintModel>,
}

impl View for Clause {
    type V = ClauseModel;

    open spec fn view(&self) -> ClauseModel {
        ClauseModel {
            action: self.action,
            features: match self.features {
                Some(required) => Some(required@),
                None => None,
            },
            platform: match self.platform {
                Some(constraint) => Some(constraint@),
                None => None,
            },
        }
    }
}

impl DeepView for Clause {
    type V = ClauseModel;

    open spec fn deep_view(&self) -> ClauseModel {
        self@
    }
}

/// Whether the run meets the conditions of the clause: its feature
/// requirement, if it has one, and its platform constraint, if it has one.
pub open spec fn clause_matches(
    clause: ClauseModel,
    platform: PlatformModel,
    enabled: Set<Seq<char>>,
) -> bool {
    &&& clause.features matches Some(required) ==> features_satisfied(required, enabled)
    &&& clause.platform matches Some(constraint) ==> platform_satisfied(constraint, platform)
}

/// Whether the clause lets its guarded value through: an allowing clause
/// does so for a run that meets its conditions, a denying clause for a run
/// that does not.
pub open spec fn clause_applies(
    clause: ClauseModel,
    platform: PlatformModel,
    enabled: Set<Seq<char>>,
) -> bool {
    clause_matches(clause, platform, enabled) != (clause.action is Deny)
}

/// Whether every clause of a guard lets the guarded value through.
pub open spec fn guard_passes(
    clauses: Seq<ClauseModel>,
    platform: PlatformModel,
    enabled: Set<Seq<char>>,
) -> bool {
    forall|i: int| 0 <= i < clauses.len() ==> clause_applies(#[trigger] clauses[i], platform, enabled)
}

impl Clause {
    /// Whether the run meets the conditions of the clause, whatever its
    /// action is.
    pub fn conditions_met(&self, platform: &PlatformContext, features: &FeatureSet) -> (met: bool)
        ensures
            met == clause_matches(self@, platform@, features@),
    {
        let features_met = match &self.features {
            Some(required) => required.satisfied_by(features),
            None => true,
        };
        let platform_met = match &self.platform {
            Some(constraint) => constraint.satisfied_by(platform),
            None => true,
        };
        features_met && platform_met
    }
}

/// Decides whether a clause lets its guarded value through for the given
/// platform and enabled features.
pub fn applies(clause: &Clause, platform: &PlatformContext, features: &FeatureSet) -> (passes: bool)
    ensures
        passes == clause_applies(clause@, platform@, features@),
{
    let met = clause.conditions_met(platform, features);
    match clause.action {
        RuleAction::Allow => met,
        RuleAction::Deny => !met,
    }
}

/// Decides whether every clause of a guard lets the guarded value through.
/// A guard without clauses passes.
pub fn all_apply(clauses: &Vec<Clause>, platform: &PlatformContext, features: &FeatureSet) -> (passes:
    bool)
    ensures
        passes == guard_passes(clauses.deep_view(), platform@, features@),
{
    let mut i: usize = 0;
    while i < clauses.len()
        invariant
            i <= clauses.len(),
            forall|k: int|
                0 <= k < i ==> clause_applies(#[trigger] clauses.deep_view()[k], platform@, features@),
        decreases clauses.len() - i,
    {
        if !applies(&clauses[i], platform, features) {
            assert(!clause_applies(clauses.deep_view()[i as int], platform@, features@));
            return false;
        }
        i = i + 1;
    }
    true
}

/// A guard passes exactly when each of its clauses does: a guard made of
/// two parts passes exactly when both parts pass.
pub proof fn lemma_guard_is_conjunction(
    first: Seq<ClauseModel>,
    second: Seq<ClauseModel>,
    platform: PlatformModel,
    enabled: Set<Seq<char>>,
)
    ensures
        guard_passes(first + second, platform, enabled) <==> guard_passes(first, platform, enabled)
            && guard_passes(second, platform, enabled),
{
    let both = first + second;
    if guard_passes(both, platform, enabled) {
        assert forall|i: int| 0 <= i < first.len() implies clause_applies(
            #[trigger] first[i],
            platform,
            enabled,
        ) by {
            assert(both[i] == first[i]);
        }
        assert forall|i: int| 0 <= i < second.len() implies clause_applies(
            #[trigger] second[i],
            platform,
            enabled,
        ) by {
            assert(both[first.len() + i] == second[i]);
        }
    }
    if guard_passes(first, platform, enabled) && guard_passes(second, platform, enabled) {
        assert forall|i: int| 0 <= i < both.len() implies clause_applies(
            #[trigger] both[i],
            platform,
            enabled,
        ) by {
            if i < first.len() {
                assert(both[i] == first[i]);
            } else {
                assert(both[i] == second[i - first.len()]);
            }
        }
    }
}

/// A guard of two allowing clauses, of which one names an operating system
/// and the other asks for a feature, passes exactly when the platform has
/// that name and the feature is enabled.
pub proof fn lemma_guard_needs_platform_and_feature(
    os: Seq<char>,
    feature: Seq<char>,
    platform: PlatformModel,
    enabled: Set<Seq<char>>,
)
    ensures
        guard_passes(
            seq![
                (ClauseModel {
                    action: RuleAction::Allow,
                    features: None,
                    platform: Some(PlatformConstraintModel { name: Some(os), arch: None }),
                }),
                (ClauseModel {
                    action: RuleAction::Allow,
                    features: Some(Map::<Seq<char>, bool>::empty().insert(feature, true)),
                    platform: None,
                }),
            ],
            platform,
            enabled,
        ) <==> platform.name == os && enabled.contains(feature),
{
    let on_os = ClauseModel {
        action: RuleAction::Allow,
        features: None,
        platform: Some(PlatformConstraintModel { name: Some(os), arch: None }),
    };
    let required = Map::<Seq<char>, bool>::empty().insert(feature, true);
    let with_feature = ClauseModel { action: RuleAction::Allow, features: Some(required), platform: None };
    let clauses = seq![on_os, with_feature];
    assert(clauses[0] == on_os);
    assert(clauses[1] == with_feature);
    assert(required.contains_key(feature));
    assert(features_satisfied(required, enabled) <==> enabled.contains(feature));
}

/// A denying clause lets its value through exactly when the same clause
/// with the allowing action would not. So a denying clause that names an
/// operating system, and asks nothing else, lets its value through exactly
/// when the platform has another name.
pub proof fn lemma_deny_inverts(
    clause: ClauseModel,
    os: Seq<char>,
    platform: PlatformModel,
    enabled: Set<Seq<char>>,
)
    ensures
        clause_applies((ClauseModel { action: RuleAction::Deny, ..clause }), platform, enabled)
            <==> !clause_applies(
            (ClauseModel { action: RuleAction::Allow, ..clause }),
            platform,
            enabled,
        ),
        clause_applies(
            (ClauseModel {
                action: RuleAction::Deny,
                features: None,
                platform: Some(PlatformConstraintModel { name: Some(os), arch: None }),
            }),
            platform,
            enabled,
        ) <==> platform.name != os,
{
}

} // verus!
