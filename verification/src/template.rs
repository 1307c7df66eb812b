//! Launch-argument templates: guarded values, and `${key}` placeholders that
//! are filled from a table of constants.

use crate::rules::{all_apply, guard_passes, Clause, ClauseModel, FeatureSet, PlatformContext, PlatformModel};
use crate::text::{distinct_keys, keyed, lemma_keyed_absent, lemma_keyed_at, lemma_keyed_push, lemma_keyed_update, str_eq};
use regex::Regex;
use vstd::prelude::*;
use vstd::string::*;

verus! {

/// One constant: the text that stands in for the placeholder named `key`.
pub struct Constant {
    pub key: String,
    pub value: String,
}

/// The keys of the entries, in their order.
pub open spec fn constant_keys(entries: Seq<Constant>) -> Seq<Seq<char>> {
    Seq::new(entries.len(), |i: int| entries[i].key@)
}

/// The values of the entries, in their order.
pub open spec fn constant_values(entries: Seq<Constant>) -> Seq<Seq<char>> {
    Seq::new(entries.len(), |i: int| entries[i].value@)
}

/// The values that placeholders are filled with, by placeholder key. No key
/// has two entries.
pub struct ConstantsTable {
    entries: Vec<Constant>,
}

impl View for ConstantsTable {
    type V = Map<Seq<char>, Seq<char>>;

    closed spec fn view(&self) -> Map<Seq<char>, Seq<char>> {
        keyed(constant_keys(self.entries@), constant_values(self.entries@))
    }
}

impl ConstantsTable {
    #[verifier::type_invariant]
    spec fn well_formed(self) -> bool {
        distinct_keys(constant_keys(self.entries@))
    }

    /// The table without entries.
    pub fn new() -> (table: ConstantsTable)
        ensures
            table@ == Map::<Seq<char>, Seq<char>>::empty(),
    {
        let table = ConstantsTable { entries: Vec::new() };
        assert(table@ =~= Map::<Seq<char>, Seq<char>>::empty());
        table
    }

    /// Sets the value of `key`. A value that the key had before is replaced.
    pub fn insert(&mut self, key: &str, value: &str)
        ensures
            final(self)@ == old(self)@.insert(key@, value@),
    {
        proof {
            use_type_invariant(&*self);
        }
        let ghost keys = constant_keys(self.entries@);
        let ghost values = constant_values(self.entries@);
        let mut at: usize = 0;
        while at < self.entries.len()
            invariant
                at <= self.entries.len(),
                keys == constant_keys(self.entries@),
                forall|k: int| 0 <= k < at ==> keys[k] != key@,
            ensures
                at < self.entries.len() ==> keys[at as int] == key@,
            decreases self.entries.len() - at,
        {
            if str_eq(self.entries[at].key.as_str(), key) {
                assert(keys[at as int] == key@);
                break;
            }
            at = at + 1;
        }
        // The entries are taken out while they change, so that the table is
        // never seen half changed.
        let mut entries: Vec<Constant> = Vec::new();
        core::mem::swap(&mut self.entries, &mut entries);
        let entry = Constant { key: key.to_owned(), value: value.to_owned() };
        if at < entries.len() {
            entries.set(at, entry);
            proof {
                assert(constant_keys(entries@) =~= keys);
                assert(constant_values(entries@) =~= values.update(at as int, value@));
                lemma_keyed_update(keys, values, at as int, value@);
            }
        } else {
            entries.push(entry);
            proof {
                assert(constant_keys(entries@) =~= keys.push(key@));
                assert(constant_values(entries@) =~= values.push(value@));
                lemma_keyed_push(keys, values, key@, value@);
            }
        }
        core::mem::swap(&mut self.entries, &mut entries);
    }

    /// The value of `key`, if the table has one.
    pub fn get(&self, key: &str) -> (found: Option<&String>)
        ensures
            match found {
                Some(value) => self@.contains_key(key@) && value@ == self@[key@],
                None => !self@.contains_key(key@),
            },
    {
        proof {
            use_type_invariant(self);
        }
        let ghost keys = constant_keys(self.entries@);
        let ghost values = constant_values(self.entries@);
        let mut i: usize = 0;
        while i < self.entries.len()
            invariant
                i <= self.entries.len(),
                keys == constant_keys(self.entries@),
                values == constant_values(self.entries@),
                distinct_keys(keys),
                forall|k: int| 0 <= k < i ==> keys[k] != key@,
            decreases self.entries.len() - i,
        {
            if str_eq(self.entries[i].key.as_str(), key) {
                proof {
                    lemma_keyed_at(keys, values, i as int);
                }
                return Some(&self.entries[i].value);
            }
            i = i + 1;
        }
        proof {
            lemma_keyed_absent(keys, values, key@);
        }
        None
    }
}

/// The pattern of a placeholder: a dollar sign, then a key of word
/// characters between braces.
pub const PLACEHOLDER_PATTERN: &'static str = r"\$\{(?<key>\w+)}";

/// The name of the group that holds a placeholder's key.
pub const KEY_GROUP: &'static str = "key";

/// What `regex::Regex::split` yields for `text` with the regular expression
/// that `regex::Regex::new` makes of `pattern`: the parts of `text` that lie
/// between the matches, in order. `None` where `pattern` is not accepted.
pub uninterp spec fn regex_split(pattern: Seq<char>, text: Seq<char>) -> Option<Seq<Seq<char>>>;

/// What `regex::Regex::captures_iter` yields for `text` with the regular
/// expression that `regex::Regex::new` makes of `pattern`, each match reduced
/// to what its group named `group` holds (`None` where the match has no such
/// group). `None` where `pattern` is not accepted.
pub uninterp spec fn regex_group_matches(
    pattern: Seq<char>,
    group: Seq<char>,
    text: Seq<char>,
) -> Option<Seq<Option<Seq<char>>>>;

/// Calls `regex::Regex::new` on `pattern` and `regex::Regex::split` on
/// `text`. Trusted: the parts that come back are the ones that the `regex`
/// crate finds between the matches, each copied into a `String`.
#[verifier::external_body]
fn split_by_pattern(pattern: &str, text: &str) -> (pieces: Option<Vec<String>>)
    ensures
        pieces.deep_view() == regex_split(pattern@, text@),
{
    match Regex::new(pattern) {
        Ok(compiled) => Some(compiled.split(text).map(|piece| piece.to_string()).collect()),
        Err(_) => None,
    }
}

/// Calls `regex::Regex::new` on `pattern` and `regex::Regex::captures_iter`
/// on `text`, and asks each match for its group `group` with
/// `regex::Captures::name`. Trusted: what comes back is what the `regex`
/// crate finds, each group's text copied into a `String`.
#[verifier::external_body]
fn capture_group(pattern: &str, group: &str, text: &str) -> (found: Option<Vec<Option<String>>>)
    ensures
        found.deep_view() == regex_group_matches(pattern@, group@, text@),
{
    match Regex::new(pattern) {
        Ok(compiled) => Some(
            compiled.captures_iter(text).map(
                |captures| captures.name(group).map(|held| held.as_str().to_string()),
            ).collect(),
        ),
        Err(_) => None,
    }
}

/// The text that stands in for a placeholder: the value of its key, or the
/// empty text where the table has no such key or the placeholder has no key.
pub open spec fn replacement(key: Option<Seq<char>>, constants: Map<Seq<char>, Seq<char>>) -> Seq<char> {
    match key {
        Some(key) => if constants.contains_key(key) {
            constants[key]
        } else {
            Seq::empty()
        },
        None => Seq::empty(),
    }
}

/// The text made of the pieces in order, each followed by the replacement
/// of the key at the same position, as far as there are keys.
pub open spec fn filled(
    pieces: Seq<Seq<char>>,
    keys: Seq<Option<Seq<char>>>,
    constants: Map<Seq<char>, Seq<char>>,
) -> Seq<char>
    decreases pieces.len(),
{
    if pieces.len() == 0 {
        Seq::empty()
    } else {
        let last = pieces.len() - 1;
        filled(pieces.drop_last(), keys, constants) + pieces[last] + (if last < keys.len() {
            replacement(keys[last], constants)
        } else {
            Seq::empty()
        })
    }
}

/// `text` with every placeholder replaced: the parts between the
/// placeholders stay, and each placeholder gives way to the value of its key
/// or, where the table lacks the key, to nothing.
pub open spec fn substituted(text: Seq<char>, constants: Map<Seq<char>, Seq<char>>) -> Seq<char> {
    match (
        regex_split(PLACEHOLDER_PATTERN@, text),
        regex_group_matches(PLACEHOLDER_PATTERN@, KEY_GROUP@, text),
    ) {
        (Some(pieces), Some(keys)) => filled(pieces, keys, constants),
        _ => text,
    }
}

/// Joins the parts of a text that lie between its placeholders, putting in
/// place of each placeholder the value of its key. A key that the table
/// lacks leaves nothing in its place.
pub fn fill_placeholders(
    pieces: &Vec<String>,
    keys: &Vec<Option<String>>,
    constants: &ConstantsTable,
) -> (text: String)
    ensures
        text@ == filled(pieces.deep_view(), keys.deep_view(), constants@),
{
    let mut text = String::new();
    let mut i: usize = 0;
    while i < pieces.len()
        invariant
            i <= pieces.len(),
            text@ == filled(pieces.deep_view().take(i as int), keys.deep_view(), constants@),
        decreases pieces.len() - i,
    {
        proof {
            let upto = pieces.deep_view().take(i + 1);
            assert(upto.drop_last() =~= pieces.deep_view().take(i as int));
            assert(upto[i as int] == pieces[i as int]@);
        }
        text.append(pieces[i].as_str());
        if i < keys.len() {
            match &keys[i] {
                Some(key) => {
                    match constants.get(key.as_str()) {
                        Some(value) => {
                            text.append(value.as_str());
                        },
                        None => {
                            assert(text@ + Seq::<char>::empty() =~= text@);
                        },
                    }
                },
                None => {
                    assert(text@ + Seq::<char>::empty() =~= text@);
                },
            }
        } else {
            assert(text@ + Seq::<char>::empty() =~= text@);
        }
        i = i + 1;
    }
    assert(pieces.deep_view().take(pieces.len() as int) =~= pieces.deep_view());
    text
}

/// Replaces every `${key}` placeholder of `text` by the value that the table
/// has for `key`, and by nothing where the table lacks the key.
pub fn substitute(text: &str, constants: &ConstantsTable) -> (out: String)
    ensures
        out@ == substituted(text@, constants@),
{
    let pieces = split_by_pattern(PLACEHOLDER_PATTERN, text);
    let keys = capture_group(PLACEHOLDER_PATTERN, KEY_GROUP, text);
    match (pieces, keys) {
        (Some(pieces), Some(keys)) => fill_placeholders(&pieces, &keys, constants),
        _ => text.to_owned(),
    }
}

/// The keys, in order, that the table has no value for.
pub open spec fn missing(keys: Seq<Option<Seq<char>>>, constants: Map<Seq<char>, Seq<char>>) -> Seq<
    Seq<char>,
>
    decreases keys.len(),
{
    if keys.len() == 0 {
        Seq::empty()
    } else {
        let rest = missing(keys.drop_last(), constants);
        match keys.last() {
            Some(key) => if constants.contains_key(key) {
                rest
            } else {
                rest.push(key)
            },
            None => rest,
        }
    }
}

/// The placeholder keys of `text`, in order, that the table has no value
/// for.
pub open spec fn unresolved(text: Seq<char>, constants: Map<Seq<char>, Seq<char>>) -> Seq<Seq<char>> {
    match regex_group_matches(PLACEHOLDER_PATTERN@, KEY_GROUP@, text) {
        Some(keys) => missing(keys, constants),
        None => Seq::empty(),
    }
}

/// Lists the keys, in order, that the table has no value for: the
/// placeholders that `fill_placeholders` replaces by nothing.
pub fn missing_keys(keys: &Vec<Option<String>>, constants: &ConstantsTable) -> (absent: Vec<String>)
    ensures
        absent.deep_view() == missing(keys.deep_view(), constants@),
{
    let mut absent: Vec<String> = Vec::new();
    let mut i: usize = 0;
    assert(keys.deep_view().take(0) =~= Seq::empty());
    assert(absent.deep_view() =~= Seq::empty());
    while i < keys.len()
        invariant
            i <= keys.len(),
            absent.deep_view() == missing(keys.deep_view().take(i as int), constants@),
        decreases keys.len() - i,
    {
        proof {
            let upto = keys.deep_view().take(i + 1);
            assert(upto.drop_last() =~= keys.deep_view().take(i as int));
            assert(upto.last() == keys.deep_view()[i as int]);
        }
        match &keys[i] {
            Some(key) => {
                if constants.get(key.as_str()).is_none() {
                    let ghost before = absent.deep_view();
                    absent.push(key.clone());
                    assert(absent.deep_view() =~= before.push(key@));
                }
            },
            None => {},
        }
        i = i + 1;
    }
    assert(keys.deep_view().take(keys.len() as int) =~= keys.deep_view());
    absent
}

/// Lists the placeholder keys of `text`, in order, that the table has no
/// value for. `substitute` replaces exactly these placeholders by nothing.
pub fn unresolved_keys(text: &str, constants: &ConstantsTable) -> (absent: Vec<String>)
    ensures
        absent.deep_view() == unresolved(text@, constants@),
{
    match capture_group(PLACEHOLDER_PATTERN, KEY_GROUP, text) {
        Some(keys) => missing_keys(&keys, constants),
        None => {
            let absent: Vec<String> = Vec::new();
            assert(absent.deep_view() =~= Seq::empty());
            absent
        },
    }
}

/// The value of a guarded argument: one text, or several in order.
pub enum GuardedValue {
    Single(String),
    Multiple(Vec<String>),
}

/// What a `GuardedValue` stands for.
pub enum GuardedValueModel {
    Single(Seq<char>),
    Multiple(Seq<Seq<char>>),
}

impl View for GuardedValue {
    type V = GuardedValueModel;

    open spec fn view(&self) -> GuardedValueModel {
        match *self {
            GuardedValue::Single(text) => GuardedValueModel::Single(text@),
            GuardedValue::Multiple(texts) => GuardedValueModel::Multiple(texts.deep_view()),
        }
    }
}

/// One argument specification: a text that is always passed on, or a value
/// that is passed on only where every clause of its guard lets it through.
pub enum ArgumentSpec {
    Literal(String),
    Guarded { clauses: Vec<Clause>, value: GuardedValue },
}

/// What an `ArgumentSpec` stands for.
pub enum ArgumentSpecModel {
    Literal(Seq<char>),
    Guarded { clauses: Seq<ClauseModel>, value: GuardedValueModel },
}

impl View for ArgumentSpec {
    type V = ArgumentSpecModel;

    open spec fn view(&self) -> ArgumentSpecModel {
        match *self {
            ArgumentSpec::Literal(text) => ArgumentSpecModel::Literal(text@),
            ArgumentSpec::Guarded { clauses, value } => ArgumentSpecModel::Guarded {
                clauses: clauses.deep_view(),
                value: value@,
            },
        }
    }
}

impl DeepView for ArgumentSpec {
    type V = ArgumentSpecModel;

    open spec fn deep_view(&self) -> ArgumentSpecModel {
        self@
    }
}

/// The texts of a guarded value, in order.
pub open spec fn value_texts(value: GuardedValueModel) -> Seq<Seq<char>> {
    match value {
        GuardedValueModel::Single(text) => seq![text],
        GuardedValueModel::Multiple(texts) => texts,
    }
}

/// The texts that a specification passes on, before placeholders are
/// filled: a literal passes on its text; a guarded value passes on its texts
/// where its guard passes, and nothing where it does not.
pub open spec fn selected(
    spec: ArgumentSpecModel,
    platform: PlatformModel,
    enabled: Set<Seq<char>>,
) -> Seq<Seq<char>> {
    match spec {
        ArgumentSpecModel::Literal(text) => seq![text],
        ArgumentSpecModel::Guarded { clauses, value } => if guard_passes(clauses, platform, enabled) {
            value_texts(value)
        } else {
            Seq::empty()
        },
    }
}

/// Each of the texts with its placeholders filled.
pub open spec fn substituted_all(texts: Seq<Seq<char>>, constants: Map<Seq<char>, Seq<char>>) -> Seq<
    Seq<char>,
> {
    Seq::new(texts.len(), |i: int| substituted(texts[i], constants))
}

/// The arguments that one specification contributes.
pub open spec fn contribution(
    spec: ArgumentSpecModel,
    constants: Map<Seq<char>, Seq<char>>,
    platform: PlatformModel,
    enabled: Set<Seq<char>>,
) -> Seq<Seq<char>> {
    substituted_all(selected(spec, platform, enabled), constants)
}

/// The arguments that a list of specifications resolves to: the
/// contributions of the specifications, one after the other in the order of
/// the list.
pub open spec fn resolved(
    specs: Seq<ArgumentSpecModel>,
    constants: Map<Seq<char>, Seq<char>>,
    platform: PlatformModel,
    enabled: Set<Seq<char>>,
) -> Seq<Seq<char>>
    decreases specs.len(),
{
    if specs.len() == 0 {
        Seq::empty()
    } else {
        resolved(specs.drop_last(), constants, platform, enabled) + contribution(
            specs.last(),
            constants,
            platform,
            enabled,
        )
    }
}

/// Appends to `out` each of `texts` with its placeholders filled.
fn push_substituted(out: &mut Vec<String>, texts: &Vec<String>, constants: &ConstantsTable)
    ensures
        final(out).deep_view() == old(out).deep_view() + substituted_all(
            texts.deep_view(),
            constants@,
        ),
{
    let ghost base = out.deep_view();
    let mut j: usize = 0;
    assert(out.deep_view() =~= base + substituted_all(texts.deep_view().take(0), constants@));
    while j < texts.len()
        invariant
            j <= texts.len(),
            out.deep_view() == base + substituted_all(texts.deep_view().take(j as int), constants@),
        decreases texts.len() - j,
    {
        let ghost before = out.deep_view();
        out.push(substitute(texts[j].as_str(), constants));
        assert(out.deep_view() =~= before.push(substituted(texts[j as int]@, constants@)));
        assert(out.deep_view() =~= base + substituted_all(
            texts.deep_view().take(j + 1),
            constants@,
        ));
        j = j + 1;
    }
    assert(texts.deep_view().take(texts.len() as int) =~= texts.deep_view());
}

/// Expands a list of argument specifications into the arguments of a run.
/// Each specification contributes in its place: a literal its text, a
/// guarded value its text or texts where every clause of its guard lets it
/// through for the platform and the enabled features, and nothing where one
/// does not. Every text that is passed on has its placeholders filled from
/// the table. This never fails: a placeholder whose key the table lacks is
/// replaced by nothing.
pub fn resolve(
    specs: &Vec<ArgumentSpec>,
    constants: &ConstantsTable,
    features: &FeatureSet,
    platform: &PlatformContext,
) -> (arguments: Vec<String>)
    ensures
        arguments.deep_view() == resolved(specs.deep_view(), constants@, platform@, features@),
{
    let mut arguments: Vec<String> = Vec::new();
    let mut i: usize = 0;
    assert(specs.deep_view().take(0) =~= Seq::empty());
    assert(arguments.deep_view() =~= Seq::empty());
    while i < specs.len()
        invariant
            i <= specs.len(),
            arguments.deep_view() == resolved(
                specs.deep_view().take(i as int),
                constants@,
                platform@,
                features@,
            ),
        decreases specs.len() - i,
    {
        proof {
            let upto = specs.deep_view().take(i + 1);
            assert(upto.drop_last() =~= specs.deep_view().take(i as int));
            assert(upto.last() == specs[i as int]@);
        }
        let ghost before = arguments.deep_view();
        match &specs[i] {
            ArgumentSpec::Literal(text) => {
                arguments.push(substitute(text.as_str(), constants));
                assert(arguments.deep_view() =~= before + substituted_all(seq![text@], constants@));
            },
            ArgumentSpec::Guarded { clauses, value } => {
                if all_apply(clauses, platform, features) {
                    match value {
                        GuardedValue::Single(text) => {
                            arguments.push(substitute(text.as_str(), constants));
                            assert(arguments.deep_view() =~= before + substituted_all(
                                seq![text@],
                                constants@,
                            ));
                        },
                        GuardedValue::Multiple(texts) => {
                            push_substituted(&mut arguments, texts, constants);
                        },
                    }
                } else {
                    assert(arguments.deep_view() =~= before + substituted_all(
                        Seq::empty(),
                        constants@,
                    ));
                }
            },
        }
        i = i + 1;
    }
    assert(specs.deep_view().take(specs.len() as int) =~= specs.deep_view());
    arguments
}

/// The placeholder keys of the texts, in order, that the table has no
/// value for.
pub open spec fn unresolved_all(texts: Seq<Seq<char>>, constants: Map<Seq<char>, Seq<char>>) -> Seq<
    Seq<char>,
>
    decreases texts.len(),
{
    if texts.len() == 0 {
        Seq::empty()
    } else {
        unresolved_all(texts.drop_last(), constants) + unresolved(texts.last(), constants)
    }
}

/// The placeholder keys that resolving a list of specifications replaces by
/// nothing: those of the texts that are passed on, in the order of the
/// arguments, that the table has no value for.
pub open spec fn unresolved_in(
    specs: Seq<ArgumentSpecModel>,
    constants: Map<Seq<char>, Seq<char>>,
    platform: PlatformModel,
    enabled: Set<Seq<char>>,
) -> Seq<Seq<char>>
    decreases specs.len(),
{
    if specs.len() == 0 {
        Seq::empty()
    } else {
        unresolved_in(specs.drop_last(), constants, platform, enabled) + unresolved_all(
            selected(specs.last(), platform, enabled),
            constants,
        )
    }
}

/// Appends to `out` the unresolved placeholder keys of each of `texts`.
fn push_unresolved(out: &mut Vec<String>, texts: &Vec<String>, constants: &ConstantsTable)
    ensures
        final(out).deep_view() == old(out).deep_view() + unresolved_all(
            texts.deep_view(),
            constants@,
        ),
{
    let ghost base = out.deep_view();
    let mut j: usize = 0;
    assert(texts.deep_view().take(0) =~= Seq::empty());
    assert(out.deep_view() =~= base + unresolved_all(texts.deep_view().take(0), constants@));
    while j < texts.len()
        invariant
            j <= texts.len(),
            out.deep_view() == base + unresolved_all(texts.deep_view().take(j as int), constants@),
        decreases texts.len() - j,
    {
        proof {
            let upto = texts.deep_view().take(j + 1);
            assert(upto.drop_last() =~= texts.deep_view().take(j as int));
            assert(upto.last() == texts[j as int]@);
        }
        let ghost before = out.deep_view();
        let mut absent = unresolved_keys(texts[j].as_str(), constants);
        let ghost added = absent.deep_view();
        out.append(&mut absent);
        assert(out.deep_view() =~= before + added);
        assert(out.deep_view() =~= base + unresolved_all(
            texts.deep_view().take(j + 1),
            constants@,
        ));
        j = j + 1;
    }
    assert(texts.deep_view().take(texts.len() as int) =~= texts.deep_view());
}

/// Lists the placeholders that `resolve` replaces by nothing for the same
/// input: the keys without a value in the table, of the texts that are
/// passed on, in the order of the arguments. An empty list says that every
/// placeholder was filled from the table.
pub fn unresolved_placeholders(
    specs: &Vec<ArgumentSpec>,
    constants: &ConstantsTable,
    features: &FeatureSet,
    platform: &PlatformContext,
) -> (absent: Vec<String>)
    ensures
        absent.deep_view() == unresolved_in(specs.deep_view(), constants@, platform@, features@),
{
    let mut absent: Vec<String> = Vec::new();
    let mut i: usize = 0;
    assert(specs.deep_view().take(0) =~= Seq::empty());
    assert(absent.deep_view() =~= Seq::empty());
    while i < specs.len()
        invariant
            i <= specs.len(),
            absent.deep_view() == unresolved_in(
                specs.deep_view().take(i as int),
                constants@,
                platform@,
                features@,
            ),
        decreases specs.len() - i,
    {
        proof {
            let upto = specs.deep_view().take(i + 1);
            assert(upto.drop_last() =~= specs.deep_view().take(i as int));
            assert(upto.last() == specs[i as int]@);
            reveal_with_fuel(unresolved_all, 2);
        }
        let ghost before = absent.deep_view();
        match &specs[i] {
            ArgumentSpec::Literal(text) => {
                let mut found = unresolved_keys(text.as_str(), constants);
                let ghost added = found.deep_view();
                absent.append(&mut found);
                assert(absent.deep_view() =~= before + added);
                assert(seq![text@].drop_last() =~= Seq::<Seq<char>>::empty());
                assert(unresolved_all(seq![text@], constants@) =~= added);
            },
            ArgumentSpec::Guarded { clauses, value } => {
                if all_apply(clauses, platform, features) {
                    match value {
                        GuardedValue::Single(text) => {
                            let mut found = unresolved_keys(text.as_str(), constants);
                            let ghost added = found.deep_view();
                            absent.append(&mut found);
                            assert(absent.deep_view() =~= before + added);
                            assert(seq![text@].drop_last() =~= Seq::<Seq<char>>::empty());
                            assert(unresolved_all(seq![text@], constants@) =~= added);
                        },
                        GuardedValue::Multiple(texts) => {
                            push_unresolved(&mut absent, texts, constants);
                        },
                    }
                } else {
                    assert(absent.deep_view() =~= before + unresolved_all(
                        Seq::empty(),
                        constants@,
                    ));
                }
            },
        }
        i = i + 1;
    }
    assert(specs.deep_view().take(specs.len() as int) =~= specs.deep_view());
    absent
}

/// Resolving a list made of two parts gives the arguments of the first part
/// followed by those of the second.
pub proof fn lemma_resolved_concat(
    first: Seq<ArgumentSpecModel>,
    second: Seq<ArgumentSpecModel>,
    constants: Map<Seq<char>, Seq<char>>,
    platform: PlatformModel,
    enabled: Set<Seq<char>>,
)
    ensures
        resolved(first + second, constants, platform, enabled) == resolved(
            first,
            constants,
            platform,
            enabled,
        ) + resolved(second, constants, platform, enabled),
    decreases second.len(),
{
    if second.len() == 0 {
        assert(first + second =~= first);
        assert(resolved(first, constants, platform, enabled) + Seq::<Seq<char>>::empty() =~= resolved(
            first,
            constants,
            platform,
            enabled,
        ));
    } else {
        let both = first + second;
        assert(both.drop_last() =~= first + second.drop_last());
        assert(both.last() == second.last());
        lemma_resolved_concat(first, second.drop_last(), constants, platform, enabled);
        let a = resolved(first, constants, platform, enabled);
        let b = resolved(second.drop_last(), constants, platform, enabled);
        let c = contribution(second.last(), constants, platform, enabled);
        assert((a + b) + c =~= a + (b + c));
    }
}

/// A list of one specification resolves to what that specification
/// contributes.
pub proof fn lemma_resolved_single(
    spec: ArgumentSpecModel,
    constants: Map<Seq<char>, Seq<char>>,
    platform: PlatformModel,
    enabled: Set<Seq<char>>,
)
    ensures
        resolved(seq![spec], constants, platform, enabled) == contribution(
            spec,
            constants,
            platform,
            enabled,
        ),
{
    let one = seq![spec];
    assert(one.drop_last() =~= Seq::<ArgumentSpecModel>::empty());
    assert(one.last() == spec);
    assert(resolved(one.drop_last(), constants, platform, enabled) == Seq::<Seq<char>>::empty());
    assert(Seq::<Seq<char>>::empty() + contribution(spec, constants, platform, enabled)
        =~= contribution(spec, constants, platform, enabled));
}

/// A guarded value of several texts expands in place. Where its guard
/// passes, the arguments are those of the specifications before it, then
/// each of its texts in order with the placeholders filled, then those of
/// the specifications after it. Where its guard does not pass, it leaves
/// nothing between its neighbours.
pub proof fn lemma_guarded_texts_expand_in_place(
    before: Seq<ArgumentSpecModel>,
    clauses: Seq<ClauseModel>,
    texts: Seq<Seq<char>>,
    after: Seq<ArgumentSpecModel>,
    constants: Map<Seq<char>, Seq<char>>,
    platform: PlatformModel,
    enabled: Set<Seq<char>>,
)
    ensures
        resolved(
            before + seq![
                (ArgumentSpecModel::Guarded { clauses, value: GuardedValueModel::Multiple(texts) }),
            ] + after,
            constants,
            platform,
            enabled,
        ) == resolved(before, constants, platform, enabled) + (if guard_passes(
            clauses,
            platform,
            enabled,
        ) {
            substituted_all(texts, constants)
        } else {
            Seq::empty()
        }) + resolved(after, constants, platform, enabled),
{
    let guarded = ArgumentSpecModel::Guarded { clauses, value: GuardedValueModel::Multiple(texts) };
    lemma_resolved_concat(before + seq![guarded], after, constants, platform, enabled);
    lemma_resolved_concat(before, seq![guarded], constants, platform, enabled);
    lemma_resolved_single(guarded, constants, platform, enabled);
    if !guard_passes(clauses, platform, enabled) {
        assert(substituted_all(Seq::<Seq<char>>::empty(), constants) =~= Seq::<Seq<char>>::empty());
    }
}

/// What a run is resolved against: the constants that fill placeholders,
/// the enabled features and the platform.
pub struct ArgumentQuery {
    pub constants: ConstantsTable,
    pub features: FeatureSet,
    pub platform: PlatformContext,
}

/// Expands a list of argument specifications for the run that `query`
/// describes.
pub fn resolve_arguments(arguments: &Vec<ArgumentSpec>, query: &ArgumentQuery) -> (resolved_arguments:
    Vec<String>)
    ensures
        resolved_arguments.deep_view() == resolved(
            arguments.deep_view(),
            query.constants@,
            query.platform@,
            query.features@,
        ),
{
    resolve(arguments, &query.constants, &query.features, &query.platform)
}

} // verus!
