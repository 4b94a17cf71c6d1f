//! Readable requirement identifiers: prefixes, counters and the numbering
//! strategies of the identifier configuration.
use vstd::prelude::*;
use vstd::string::*;
use crate::model::{
    first_type_with_name, req_type_text, FeatureDefinition, IdConfigValidation, IdFormat, NumberingStrategy,
    RequirementType,
};
use crate::requirement::Requirement;
use crate::store::RequirementsStore;
use crate::text::{
    after_last, all_digits, before_first, contains_str, count_char, count_occurrences, decimal, decimal_string,
    format_padded, lemma_padded_decimal_injective,
    has_substring, is_all_digits, lowercase, opt_eq_str, opt_is, opt_view, owned, split_first, split_last, str_eq,
    to_upper, uppercase, views, zero_pad,
};

verus! {

/// The counters of a list of (key, next number) entries; the first entry of a
/// key counts.
pub open spec fn counter_map(v: Seq<(String, u32)>) -> Map<Seq<char>, nat>
    decreases v.len(),
{
    if v.len() == 0 {
        Map::empty()
    } else {
        counter_map(v.drop_first()).insert(v[0].0@, v[0].1 as nat)
    }
}

/// The next number of key `k`: its counter, or 1 for a key not yet counted.
pub open spec fn counter_of(m: Map<Seq<char>, nat>, k: Seq<char>) -> nat {
    if m.contains_key(k) {
        m[k]
    } else {
        1
    }
}

/// Whether no two entries of a counter list share a key.
pub open spec fn counter_keys_distinct(v: Seq<(String, u32)>) -> bool {
    forall|i: int, j: int| 0 <= i < j < v.len() ==> (#[trigger] v[i]).0@ != (#[trigger] v[j]).0@
}

/// Every key of a counter list is counted.
proof fn lemma_counter_map_has(v: Seq<(String, u32)>, a: int)
    requires
        0 <= a < v.len(),
    ensures
        counter_map(v).contains_key(v[a].0@),
    decreases v.len(),
{
    if a > 0 {
        lemma_counter_map_has(v.drop_first(), a - 1);
        assert(v.drop_first()[a - 1] == v[a]);
    }
}

/// Whether every counter in `v` is at most `b`.
pub open spec fn counters_at_most(v: Seq<(String, u32)>, b: nat) -> bool {
    forall|i: int| 0 <= i < v.len() ==> (#[trigger] v[i]).1 <= b
}

/// The view of an optional string slice.
pub open spec fn opt_str(o: Option<&str>) -> Option<Seq<char>> {
    match o {
        Some(s) => Some(s@),
        None => None,
    }
}

/// `s` in uppercase, or `default` when there is none.
pub open spec fn upper_or(s: Option<Seq<char>>, default: Seq<char>) -> Seq<char> {
    match s {
        Some(x) => uppercase(x),
        None => default,
    }
}

/// The prefix of a single-level identifier: the type prefix, else the feature
/// prefix, in uppercase, else `REQ`.
pub open spec fn single_prefix(fp: Option<Seq<char>>, tp: Option<Seq<char>>) -> Seq<char> {
    match tp {
        Some(t) => uppercase(t),
        None => upper_or(fp, "REQ"@),
    }
}

/// The counter key an identifier draws its number from, when it does not use
/// the global counter.
pub open spec fn counter_key(
    format: IdFormat,
    numbering: NumberingStrategy,
    fp: Option<Seq<char>>,
    tp: Option<Seq<char>>,
) -> Option<Seq<char>> {
    match numbering {
        NumberingStrategy::Global => None,
        NumberingStrategy::PerPrefix => match format {
            IdFormat::SingleLevel => Some(uppercase(single_prefix(fp, tp))),
            IdFormat::TwoLevel => Some(uppercase(upper_or(fp, "GEN"@))),
        },
        NumberingStrategy::PerFeatureType => match format {
            IdFormat::SingleLevel => Some(uppercase(single_prefix(fp, tp))),
            IdFormat::TwoLevel => Some(uppercase(upper_or(fp, "GEN"@) + "-"@ + upper_or(tp, "REQ"@))),
        },
    }
}

/// The text of an identifier with number `n`.
pub open spec fn id_text(format: IdFormat, digits: u8, fp: Option<Seq<char>>, tp: Option<Seq<char>>, n: nat) -> Seq<
    char,
> {
    match format {
        IdFormat::SingleLevel => single_prefix(fp, tp) + "-"@ + zero_pad(decimal(n), digits as nat),
        IdFormat::TwoLevel => upper_or(fp, "GEN"@) + "-"@ + upper_or(tp, "REQ"@) + "-"@ + zero_pad(
            decimal(n),
            digits as nat,
        ),
    }
}

/// The state that numbering works on: the global counter and the counters
/// per key.
pub struct Numbering {
    pub next: nat,
    pub counters: Map<Seq<char>, nat>,
}

/// The numbering state of a store.
pub open spec fn numbering_of(s: RequirementsStore) -> Numbering {
    Numbering { next: s.next_spec_number as nat, counters: counter_map(s.prefix_counters@) }
}

/// Draws a number: from the global counter when `key` is none, else from
/// the counter of `key`; gives the number and the state after it.
pub open spec fn draw(st: Numbering, key: Option<Seq<char>>) -> (nat, Numbering) {
    match key {
        None => (st.next, Numbering { next: st.next + 1, counters: st.counters }),
        Some(k) => {
            let n = counter_of(st.counters, k);
            (n, Numbering { next: st.next, counters: st.counters.insert(k, n + 1) })
        },
    }
}

/// The identifier generated from feature prefix `fp` and type prefix `tp`,
/// and the numbering state after it.
pub open spec fn generate(
    st: Numbering,
    format: IdFormat,
    numbering: NumberingStrategy,
    digits: u8,
    fp: Option<Seq<char>>,
    tp: Option<Seq<char>>,
) -> (Seq<char>, Numbering) {
    let (n, st2) = draw(st, counter_key(format, numbering, fp, tp));
    (id_text(format, digits, fp, tp, n), st2)
}

/// The identifier generated for a requirement with prefix override `p`:
/// single-level with `p` in uppercase, and the numbering state after it.
pub open spec fn generate_with_override(st: Numbering, numbering: NumberingStrategy, digits: u8, p: Seq<char>) -> (
    Seq<char>,
    Numbering,
) {
    let key = match numbering {
        NumberingStrategy::Global => None,
        _ => Some(uppercase(uppercase(p))),
    };
    let (n, st2) = draw(st, key);
    (uppercase(p) + "-"@ + zero_pad(decimal(n), digits as nat), st2)
}

proof fn lemma_counter_map_first(v: Seq<(String, u32)>, k: Seq<char>, i: int)
    requires
        0 <= i < v.len(),
        v[i].0@ == k,
        forall|j: int| 0 <= j < i ==> (#[trigger] v[j]).0@ != k,
    ensures
        counter_map(v).contains_key(k),
        counter_map(v)[k] == v[i].1,
    decreases v.len(),
{
    if i > 0 {
        assert forall|j: int| 0 <= j < i - 1 implies (#[trigger] v.drop_first()[j]).0@ != k by {
            assert(v.drop_first()[j] == v[j + 1]);
        }
        lemma_counter_map_first(v.drop_first(), k, i - 1);
    }
}

proof fn lemma_counter_map_absent(v: Seq<(String, u32)>, k: Seq<char>)
    requires
        forall|j: int| 0 <= j < v.len() ==> (#[trigger] v[j]).0@ != k,
    ensures
        !counter_map(v).contains_key(k),
    decreases v.len(),
{
    if v.len() > 0 {
        assert forall|j: int| 0 <= j < v.len() - 1 implies (#[trigger] v.drop_first()[j]).0@ != k by {
            assert(v.drop_first()[j] == v[j + 1]);
        }
        lemma_counter_map_absent(v.drop_first(), k);
    }
}

proof fn lemma_counter_map_update_first(v: Seq<(String, u32)>, k: Seq<char>, i: int, x: (String, u32))
    requires
        0 <= i < v.len(),
        v[i].0@ == k,
        x.0@ == k,
        forall|j: int| 0 <= j < i ==> (#[trigger] v[j]).0@ != k,
    ensures
        counter_map(v.update(i, x)) == counter_map(v).insert(k, x.1 as nat),
    decreases v.len(),
{
    if i == 0 {
        assert(v.update(i, x).drop_first() =~= v.drop_first());
        assert(counter_map(v.update(i, x)) =~= counter_map(v).insert(k, x.1 as nat));
    } else {
        assert(v.update(i, x).drop_first() =~= v.drop_first().update(i - 1, x));
        assert forall|j: int| 0 <= j < i - 1 implies (#[trigger] v.drop_first()[j]).0@ != k by {
            assert(v.drop_first()[j] == v[j + 1]);
        }
        lemma_counter_map_update_first(v.drop_first(), k, i - 1, x);
        assert(v[0].0@ != k);
        assert(counter_map(v.update(i, x)) =~= counter_map(v).insert(k, x.1 as nat));
    }
}

proof fn lemma_counter_map_push(v: Seq<(String, u32)>, x: (String, u32))
    requires
        !counter_map(v).contains_key(x.0@),
    ensures
        counter_map(v.push(x)) == counter_map(v).insert(x.0@, x.1 as nat),
    decreases v.len(),
{
    if v.len() == 0 {
        assert(v.push(x).drop_first() =~= Seq::<(String, u32)>::empty());
        assert(v =~= Seq::<(String, u32)>::empty());
        assert(counter_map(v.push(x).drop_first()) == Map::<Seq<char>, nat>::empty());
        assert(counter_map(v.push(x)) =~= counter_map(v).insert(x.0@, x.1 as nat));
    } else {
        assert(v.push(x).drop_first() =~= v.drop_first().push(x));
        assert(!counter_map(v.drop_first()).contains_key(x.0@) || v[0].0@ == x.0@);
        if v[0].0@ == x.0@ {
            assert(counter_map(v).contains_key(x.0@));
        } else {
            lemma_counter_map_push(v.drop_first(), x);
            assert(counter_map(v.push(x)) =~= counter_map(v).insert(x.0@, x.1 as nat));
        }
    }
}

fn find_counter(v: &Vec<(String, u32)>, key: &str) -> (r: Option<usize>)
    ensures
        match r {
            Some(i) => i < v@.len() && v@[i as int].0@ == key@ && forall|j: int|
                0 <= j < i ==> (#[trigger] v@[j]).0@ != key@,
            None => forall|j: int| 0 <= j < v@.len() ==> (#[trigger] v@[j]).0@ != key@,
        },
{
    let mut i: usize = 0;
    while i < v.len()
        invariant
            i <= v@.len(),
            forall|j: int| 0 <= j < i ==> (#[trigger] v@[j]).0@ != key@,
        decreases v.len() - i,
    {
        if str_eq(v[i].0.as_str(), key) {
            return Some(i);
        }
        i = i + 1;
    }
    None
}

/// Draws the next number of counter `key` (already in the form it is kept
/// under) from a counter list.
pub(crate) fn bump_counter(v: &mut Vec<(String, u32)>, key: &str) -> (r: u32)
    requires
        counters_at_most(old(v)@, (u32::MAX - 1) as nat),
    ensures
        r == counter_of(counter_map(old(v)@), key@),
        counter_map(final(v)@) == counter_map(old(v)@).insert(key@, (r + 1) as nat),
        forall|b: nat| b >= 1 && counters_at_most(old(v)@, b) ==> counters_at_most(final(v)@, b + 1),
        counter_keys_distinct(old(v)@) ==> counter_keys_distinct(final(v)@),
{
    match find_counter(v, key) {
        Some(i) => {
            let n = v[i].1;
            proof {
                lemma_counter_map_first(v@, key@, i as int);
            }
            let k = owned(key);
            v.set(i, (k, n + 1));
            proof {
                assert forall|a: int, b: int| counter_keys_distinct(old(v)@) && 0 <= a < b < v@.len() implies (#[trigger] v@[a]).0@
                    != (#[trigger] v@[b]).0@ by {
                    assert(v@[a].0@ == old(v)@[a].0@ && v@[b].0@ == old(v)@[b].0@);
                }
                lemma_counter_map_update_first(old(v)@, key@, i as int, v@[i as int]);
                assert forall|b: nat| b >= 1 && counters_at_most(old(v)@, b) implies counters_at_most(v@, b + 1) by {
                    assert forall|j: int| 0 <= j < v@.len() implies (#[trigger] v@[j]).1 <= b + 1 by {
                        if j != i {
                            assert(v@[j] == old(v)@[j]);
                        }
                    }
                }
            }
            n
        },
        None => {
            proof {
                lemma_counter_map_absent(v@, key@);
            }
            v.push((owned(key), 2));
            proof {
                assert forall|a: int, b: int| counter_keys_distinct(old(v)@) && 0 <= a < b < v@.len() implies (#[trigger] v@[a]).0@
                    != (#[trigger] v@[b]).0@ by {
                    if b == old(v)@.len() {
                        assert(v@[a] == old(v)@[a]);
                        assert(counter_map(old(v)@).contains_key(old(v)@[a].0@)) by {
                            lemma_counter_map_has(old(v)@, a);
                        }
                    } else {
                        assert(v@[a] == old(v)@[a] && v@[b] == old(v)@[b]);
                    }
                }
                lemma_counter_map_push(old(v)@, v@.last());
                assert(v@ == old(v)@.push(v@.last()));
                assert forall|b: nat| b >= 1 && counters_at_most(old(v)@, b) implies counters_at_most(v@, b + 1) by {
                    assert forall|j: int| 0 <= j < v@.len() implies (#[trigger] v@[j]).1 <= b + 1 by {
                        if j < old(v)@.len() {
                            assert(v@[j] == old(v)@[j]);
                        }
                    }
                }
            }
            1
        },
    }
}

fn upper_opt(s: Option<&str>, default: &str) -> (r: String)
    ensures
        r@ == upper_or(opt_str(s), default@),
{
    match s {
        Some(x) => to_upper(x),
        None => owned(default),
    }
}

/// `prefix-NNN`, the number padded to `digits`.
pub(crate) fn prefixed_number(prefix: &str, n: u32, digits: u8) -> (r: String)
    ensures
        r@ == prefix@ + "-"@ + zero_pad(decimal(n as nat), digits as nat),
{
    let mut r = owned(prefix);
    r.append("-");
    let num = format_padded(n, digits as usize);
    r.append(num.as_str());
    r
}

impl RequirementsStore {
    /// Draws the next number of the counter of `prefix` in uppercase; a
    /// prefix without counter starts at 1.
    pub fn get_next_counter_for_prefix(&mut self, prefix: &str) -> (r: u32)
        requires
            counters_at_most(old(self).prefix_counters@, (u32::MAX - 1) as nat),
        ensures
            r == counter_of(counter_map(old(self).prefix_counters@), uppercase(prefix@)),
            counter_map(final(self).prefix_counters@) == counter_map(old(self).prefix_counters@).insert(
                uppercase(prefix@),
                (r + 1) as nat,
            ),
            forall|b: nat|
                b >= 1 && counters_at_most(old(self).prefix_counters@, b) ==> counters_at_most(
                    final(self).prefix_counters@,
                    b + 1,
                ),
            *final(self) == (RequirementsStore { prefix_counters: final(self).prefix_counters, ..*old(self) }),
    {
        let upper = to_upper(prefix);
        bump_counter(&mut self.prefix_counters, upper.as_str())
    }

    fn draw_number(&mut self, key: Option<&str>) -> (r: u32)
        requires
            old(self).next_spec_number < u32::MAX,
            counters_at_most(old(self).prefix_counters@, (u32::MAX - 1) as nat),
        ensures
            (r as nat, numbering_of(*final(self))) == draw(
                numbering_of(*old(self)),
                match key {
                    Some(k) => Some(uppercase(k@)),
                    None => None,
                },
            ),
            forall|b: nat|
                b >= 1 && counters_at_most(old(self).prefix_counters@, b) ==> counters_at_most(
                    final(self).prefix_counters@,
                    b + 1,
                ),
            *final(self) == (RequirementsStore {
                prefix_counters: final(self).prefix_counters,
                next_spec_number: final(self).next_spec_number,
                ..*old(self)
            }),
    {
        match key {
            None => {
                let n = self.next_spec_number;
                self.next_spec_number = n + 1;
                n
            },
            Some(k) => self.get_next_counter_for_prefix(k),
        }
    }

    /// Generates a new readable identifier from a feature prefix and a type
    /// prefix, as the identifier configuration says: `PREFIX-NNN` (the type
    /// prefix, else the feature prefix, else `REQ`) or `FEATURE-TYPE-NNN`
    /// (`GEN` and `REQ` standing in for missing prefixes), the number drawn
    /// from the global counter or from the counter of the prefix or of the
    /// feature and type.
    pub fn generate_requirement_id(&mut self, feature_prefix: Option<&str>, type_prefix: Option<&str>) -> (r:
        String)
        requires
            old(self).next_spec_number < u32::MAX,
            counters_at_most(old(self).prefix_counters@, (u32::MAX - 1) as nat),
        ensures
            (r@, numbering_of(*final(self))) == generate(
                numbering_of(*old(self)),
                old(self).id_config.format,
                old(self).id_config.numbering,
                old(self).id_config.digits,
                opt_str(feature_prefix),
                opt_str(type_prefix),
            ),
            forall|b: nat|
                b >= 1 && counters_at_most(old(self).prefix_counters@, b) ==> counters_at_most(
                    final(self).prefix_counters@,
                    b + 1,
                ),
            *final(self) == (RequirementsStore {
                prefix_counters: final(self).prefix_counters,
                next_spec_number: final(self).next_spec_number,
                ..*old(self)
            }),
    {
        let digits = self.id_config.digits;
        match self.id_config.format {
            IdFormat::SingleLevel => {
                let prefix = match type_prefix {
                    Some(t) => to_upper(t),
                    None => upper_opt(feature_prefix, "REQ"),
                };
                let key = match self.id_config.numbering {
                    NumberingStrategy::Global => None,
                    _ => Some(prefix.as_str()),
                };
                let n = self.draw_number(key);
                prefixed_number(prefix.as_str(), n, digits)
            },
            IdFormat::TwoLevel => {
                let feat = upper_opt(feature_prefix, "GEN");
                let typ = upper_opt(type_prefix, "REQ");
                let combo = prefixed_number_text(feat.as_str(), typ.as_str());
                let n = match self.id_config.numbering {
                    NumberingStrategy::Global => self.draw_number(None),
                    NumberingStrategy::PerPrefix => self.draw_number(Some(feat.as_str())),
                    NumberingStrategy::PerFeatureType => self.draw_number(Some(combo.as_str())),
                };
                let head = prefixed_number_text(feat.as_str(), typ.as_str());
                prefixed_number(head.as_str(), n, digits)
            },
        }
    }

    /// Generates a single-level identifier with the prefix override `prefix`
    /// in uppercase, its number drawn from the global counter or from the
    /// counter of that prefix.
    pub fn generate_requirement_id_with_override(&mut self, prefix: &str) -> (r: String)
        requires
            old(self).next_spec_number < u32::MAX,
            counters_at_most(old(self).prefix_counters@, (u32::MAX - 1) as nat),
        ensures
            (r@, numbering_of(*final(self))) == generate_with_override(
                numbering_of(*old(self)),
                old(self).id_config.numbering,
                old(self).id_config.digits,
                prefix@,
            ),
            forall|b: nat|
                b >= 1 && counters_at_most(old(self).prefix_counters@, b) ==> counters_at_most(
                    final(self).prefix_counters@,
                    b + 1,
                ),
            *final(self) == (RequirementsStore {
                prefix_counters: final(self).prefix_counters,
                next_spec_number: final(self).next_spec_number,
                ..*old(self)
            }),
    {
        let prefix_upper = to_upper(prefix);
        let digits = self.id_config.digits;
        let n = match self.id_config.numbering {
            NumberingStrategy::Global => self.draw_number(None),
            _ => self.draw_number(Some(prefix_upper.as_str())),
        };
        prefixed_number(prefix_upper.as_str(), n, digits)
    }
}

/// `a-b`.
fn prefixed_number_text(a: &str, b: &str) -> (r: String)
    ensures
        r@ == a@ + "-"@ + b@,
{
    let mut r = owned(a);
    r.append("-");
    r.append(b);
    r
}


/// The type prefix a migration gives a requirement type.
pub open spec fn type_code(t: RequirementType) -> Seq<char> {
    match t {
        RequirementType::Functional => "FR"@,
        RequirementType::NonFunctional => "NFR"@,
        RequirementType::System => "SR"@,
        RequirementType::User => "UR"@,
        RequirementType::ChangeRequest => "CR"@,
    }
}

fn type_code_text(t: RequirementType) -> (r: String)
    ensures
        r@ == type_code(t),
{
    match t {
        RequirementType::Functional => owned("FR"),
        RequirementType::NonFunctional => owned("NFR"),
        RequirementType::System => owned("SR"),
        RequirementType::User => owned("UR"),
        RequirementType::ChangeRequest => owned("CR"),
    }
}

/// The prefix of the first feature whose name occurs in `feature`.
pub open spec fn feature_prefix_for(features: Seq<FeatureDefinition>, feature: Seq<char>) -> Option<Seq<char>>
    decreases features.len(),
{
    if features.len() == 0 {
        None
    } else if has_substring(feature, features[0].name@) {
        Some(features[0].prefix@)
    } else {
        feature_prefix_for(features.drop_first(), feature)
    }
}

/// Migration takes the feature part of a requirement's new identifier from
/// the prefix field of the first feature definition whose name occurs in
/// the requirement's feature: for a requirement without a prefix override,
/// when feature `i` is that first one, the migration generates the
/// identifier with feature prefix `features[i].prefix` and the code of the
/// requirement's type.
pub proof fn lemma_migration_uses_feature_prefix(
    r: Requirement,
    features: Seq<FeatureDefinition>,
    st: Numbering,
    format: IdFormat,
    numbering: NumberingStrategy,
    digits: u8,
    i: int,
)
    requires
        r.prefix_override is None,
        0 <= i < features.len(),
        has_substring(r.feature@, features[i].name@),
        forall|j: int| 0 <= j < i ==> !has_substring(r.feature@, (#[trigger] features[j]).name@),
    ensures
        feature_prefix_for(features, r.feature@) == Some(features[i].prefix@),
        migrated_id(r, features, st, format, numbering, digits) == generate(
            st,
            format,
            numbering,
            digits,
            Some(features[i].prefix@),
            Some(type_code(r.req_type)),
        ),
{
    lemma_feature_prefix_first(features, r.feature@, i);
}

/// Without a feature whose name occurs in the requirement's feature, the
/// migration generates the identifier with no feature prefix.
pub proof fn lemma_migration_without_feature(
    r: Requirement,
    features: Seq<FeatureDefinition>,
    st: Numbering,
    format: IdFormat,
    numbering: NumberingStrategy,
    digits: u8,
)
    requires
        r.prefix_override is None,
        forall|j: int| 0 <= j < features.len() ==> !has_substring(r.feature@, (#[trigger] features[j]).name@),
    ensures
        migrated_id(r, features, st, format, numbering, digits) == generate(
            st,
            format,
            numbering,
            digits,
            None,
            Some(type_code(r.req_type)),
        ),
{
    lemma_feature_prefix_none(features, r.feature@);
}

proof fn lemma_feature_prefix_first(features: Seq<FeatureDefinition>, feature: Seq<char>, i: int)
    requires
        0 <= i < features.len(),
        has_substring(feature, features[i].name@),
        forall|j: int| 0 <= j < i ==> !has_substring(feature, (#[trigger] features[j]).name@),
    ensures
        feature_prefix_for(features, feature) == Some(features[i].prefix@),
    decreases i,
{
    if i > 0 {
        let d = features.drop_first();
        assert(!has_substring(feature, features[0].name@));
        assert forall|j: int| 0 <= j < i - 1 implies !has_substring(feature, (#[trigger] d[j]).name@) by {
            assert(d[j] == features[j + 1]);
        }
        assert(d[i - 1] == features[i]);
        lemma_feature_prefix_first(d, feature, i - 1);
    }
}

proof fn lemma_feature_prefix_none(features: Seq<FeatureDefinition>, feature: Seq<char>)
    requires
        forall|j: int| 0 <= j < features.len() ==> !has_substring(feature, (#[trigger] features[j]).name@),
    ensures
        feature_prefix_for(features, feature) is None,
    decreases features.len(),
{
    if features.len() > 0 {
        let d = features.drop_first();
        assert(!has_substring(feature, features[0].name@));
        assert forall|j: int| 0 <= j < d.len() implies !has_substring(feature, (#[trigger] d[j]).name@) by {
            assert(d[j] == features[j + 1]);
        }
        lemma_feature_prefix_none(d, feature);
    }
}

/// The identifier a migration gives requirement `r`, and the numbering state
/// after it: from its prefix override if it has one, else from the prefix of
/// its feature and the code of its type.
pub open spec fn migrated_id(
    r: Requirement,
    features: Seq<FeatureDefinition>,
    st: Numbering,
    format: IdFormat,
    numbering: NumberingStrategy,
    digits: u8,
) -> (Seq<char>, Numbering) {
    match r.prefix_override {
        Some(o) => generate_with_override(st, numbering, digits, o@),
        None => generate(st, format, numbering, digits, feature_prefix_for(features, r.feature@), Some(type_code(r.req_type))),
    }
}

/// The identifiers a migration gives the requirements `reqs`, in order, and
/// the numbering state after them.
pub open spec fn migrated_ids(
    reqs: Seq<Requirement>,
    features: Seq<FeatureDefinition>,
    st: Numbering,
    format: IdFormat,
    numbering: NumberingStrategy,
    digits: u8,
) -> (Seq<Seq<char>>, Numbering)
    decreases reqs.len(),
{
    if reqs.len() == 0 {
        (Seq::empty(), st)
    } else {
        let (ids, st1) = migrated_ids(reqs.drop_last(), features, st, format, numbering, digits);
        let (id, st2) = migrated_id(reqs.last(), features, st1, format, numbering, digits);
        (ids.push(id), st2)
    }
}

/// The numbering state a migration starts from.
pub open spec fn fresh_numbering() -> Numbering {
    Numbering { next: 1, counters: Map::empty() }
}

/// Whether `after` is `before` with only its readable identifier changed, to
/// `id`.
pub open spec fn renumbered(before: Requirement, after: Requirement, id: Seq<char>) -> bool {
    after == (Requirement { spec_id: after.spec_id, ..before }) && opt_is(after.spec_id, id)
}

/// The number of requirements in `s` with a readable identifier.
pub open spec fn count_with_spec_id(s: Seq<Requirement>) -> nat
    decreases s.len(),
{
    if s.len() == 0 {
        0
    } else {
        count_with_spec_id(s.drop_last()) + if s.last().spec_id is Some { 1nat } else { 0nat }
    }
}

/// The number of digits that the last piece of identifier `id` has when that
/// piece is all digits (counted modulo 256, as a `u8`), else 0.
pub open spec fn digits_in(id: Seq<char>) -> nat {
    let last = after_last(id, '-');
    if all_digits(last) {
        last.len() % 256
    } else {
        0
    }
}

/// The largest number of digits in use among the identifiers in `s`.
pub open spec fn max_digits(s: Seq<Requirement>) -> nat
    decreases s.len(),
{
    if s.len() == 0 {
        0
    } else {
        let m = max_digits(s.drop_last());
        let d = match s.last().spec_id {
            Some(id) => digits_in(id@),
            None => 0,
        };
        if d > m {
            d
        } else {
            m
        }
    }
}

fn feature_prefix_lookup(features: &Vec<FeatureDefinition>, feature: &str) -> (r: Option<String>)
    ensures
        opt_view(r) == feature_prefix_for(features@, feature@),
{
    let mut i: usize = 0;
    proof {
        assert(features@.skip(0) =~= features@);
    }
    while i < features.len()
        invariant
            i <= features@.len(),
            feature_prefix_for(features@, feature@) == feature_prefix_for(features@.skip(i as int), feature@),
        decreases features.len() - i,
    {
        proof {
            assert(features@.skip(i as int).drop_first() =~= features@.skip(i as int + 1));
            assert(features@.skip(i as int)[0] == features@[i as int]);
        }
        if contains_str(feature, features[i].name.as_str()) {
            return Some(features[i].prefix.clone());
        }
        i = i + 1;
    }
    None
}

proof fn lemma_count_with_push(s: Seq<Requirement>, r: Requirement)
    ensures
        count_with_spec_id(s.push(r)) == count_with_spec_id(s) + if r.spec_id is Some { 1nat } else { 0nat },
{
    assert(s.push(r).drop_last() =~= s);
}

proof fn lemma_max_digits_push(s: Seq<Requirement>, r: Requirement)
    ensures
        max_digits(s.push(r)) == {
            let m = max_digits(s);
            let d = match r.spec_id {
                Some(id) => digits_in(id@),
                None => 0,
            };
            if d > m {
                d
            } else {
                m
            }
        },
{
    assert(s.push(r).drop_last() =~= s);
}

impl RequirementsStore {
    /// Adds a requirement; one without readable identifier first gets one,
    /// from its prefix override if it has one, else from the given feature and
    /// type prefixes.
    pub fn add_requirement_with_id(&mut self, req: Requirement, feature_prefix: Option<&str>, type_prefix: Option<&str>)
        requires
            old(self).next_spec_number < u32::MAX,
            counters_at_most(old(self).prefix_counters@, (u32::MAX - 1) as nat),
        ensures
            final(self).requirements@.len() == old(self).requirements@.len() + 1,
            final(self).requirements@.drop_last() == old(self).requirements@,
            req.spec_id is Some ==> final(self).requirements@.last() == req && numbering_of(*final(self))
                == numbering_of(*old(self)),
            req.spec_id is None ==> {
                let (id, st) = match req.prefix_override {
                    Some(o) => generate_with_override(
                        numbering_of(*old(self)),
                        old(self).id_config.numbering,
                        old(self).id_config.digits,
                        o@,
                    ),
                    None => generate(
                        numbering_of(*old(self)),
                        old(self).id_config.format,
                        old(self).id_config.numbering,
                        old(self).id_config.digits,
                        opt_str(feature_prefix),
                        opt_str(type_prefix),
                    ),
                };
                renumbered(req, final(self).requirements@.last(), id) && numbering_of(*final(self)) == st
            },
            *final(self) == (RequirementsStore {
                requirements: final(self).requirements,
                prefix_counters: final(self).prefix_counters,
                next_spec_number: final(self).next_spec_number,
                ..*old(self)
            }),
    {
        let mut req = req;
        if req.spec_id.is_none() {
            let id = match &req.prefix_override {
                Some(o) => self.generate_requirement_id_with_override(o.as_str()),
                None => self.generate_requirement_id(feature_prefix, type_prefix),
            };
            req.spec_id = Some(id);
        }
        self.requirements.push(req);
        proof {
            assert(self.requirements@.drop_last() =~= old(self).requirements@);
        }
    }

    /// The prefix the identifier configuration gives a requirement type: that
    /// of the first configured type named like the type's display text.
    pub fn get_type_prefix(&self, req_type: &RequirementType) -> (r: Option<String>)
        ensures
            match r {
                Some(p) => exists|i: int|
                    first_type_with_name(self.id_config.requirement_types@, lowercase(req_type_text(*req_type)), i)
                        && p == self.id_config.requirement_types@[i].prefix,
                None => forall|i: int|
                    0 <= i < self.id_config.requirement_types@.len() ==> lowercase(
                        (#[trigger] self.id_config.requirement_types@[i]).name@,
                    ) != lowercase(req_type_text(*req_type)),
            },
    {
        let name = req_type.display_text();
        match self.id_config.get_type_by_name(name.as_str()) {
            Some(t) => Some(t.prefix.clone()),
            None => None,
        }
    }

    /// Whether no requirement other than `exclude_uuid` (when given) has the
    /// readable identifier `spec_id`.
    pub fn is_spec_id_available(&self, spec_id: &str, exclude_uuid: Option<&u128>) -> (r: bool)
        ensures
            r == !exists|i: int|
                0 <= i < self.requirements@.len() && opt_is((#[trigger] self.requirements@[i]).spec_id, spec_id@)
                    && match exclude_uuid {
                    Some(u) => self.requirements@[i].id != *u,
                    None => true,
                },
    {
        let mut i: usize = 0;
        while i < self.requirements.len()
            invariant
                i <= self.requirements@.len(),
                forall|j: int|
                    0 <= j < i ==> !(opt_is((#[trigger] self.requirements@[j]).spec_id, spec_id@) && match exclude_uuid {
                        Some(u) => self.requirements@[j].id != *u,
                        None => true,
                    }),
            decreases self.requirements.len() - i,
        {
            let taken = opt_eq_str(&self.requirements[i].spec_id, spec_id) && match exclude_uuid {
                Some(u) => self.requirements[i].id != *u,
                None => true,
            };
            if taken {
                return false;
            }
            i = i + 1;
        }
        true
    }

    /// Generates a new readable identifier for requirement `req_uuid` after a
    /// change of its prefix (from `new_prefix` if given, else from the feature
    /// and type prefixes), and refuses it when another requirement already has
    /// it. The counters advance either way.
    pub fn regenerate_spec_id_for_prefix_change(
        &mut self,
        req_uuid: &u128,
        new_prefix: Option<&str>,
        feature_prefix: Option<&str>,
        type_prefix: Option<&str>,
    ) -> (r: Result<String, String>)
        requires
            old(self).next_spec_number < u32::MAX,
            counters_at_most(old(self).prefix_counters@, (u32::MAX - 1) as nat),
        ensures
            ({
                let (id, st) = match new_prefix {
                    Some(p) => generate_with_override(
                        numbering_of(*old(self)),
                        old(self).id_config.numbering,
                        old(self).id_config.digits,
                        p@,
                    ),
                    None => generate(
                        numbering_of(*old(self)),
                        old(self).id_config.format,
                        old(self).id_config.numbering,
                        old(self).id_config.digits,
                        opt_str(feature_prefix),
                        opt_str(type_prefix),
                    ),
                };
                let taken = exists|i: int|
                    0 <= i < old(self).requirements@.len() && (#[trigger] old(self).requirements@[i]).id != *req_uuid
                        && opt_is(old(self).requirements@[i].spec_id, id);
                &&& numbering_of(*final(self)) == st
                &&& match r {
                    Ok(s) => s@ == id && !taken,
                    Err(m) => taken && m@ == "ID '"@ + id + "' is already in use by another requirement"@,
                }
            }),
            *final(self) == (RequirementsStore {
                prefix_counters: final(self).prefix_counters,
                next_spec_number: final(self).next_spec_number,
                ..*old(self)
            }),
    {
        let new_spec_id = match new_prefix {
            Some(p) => self.generate_requirement_id_with_override(p),
            None => self.generate_requirement_id(feature_prefix, type_prefix),
        };
        if self.spec_id_taken_by_other(req_uuid, new_spec_id.as_str()) {
            let mut m = owned("ID '");
            m.append(new_spec_id.as_str());
            m.append("' is already in use by another requirement");
            return Err(m);
        }
        Ok(new_spec_id)
    }

    /// Whether a requirement other than `req_uuid` has the readable identifier
    /// `spec_id`.
    fn spec_id_taken_by_other(&self, req_uuid: &u128, spec_id: &str) -> (r: bool)
        ensures
            r == exists|i: int|
                0 <= i < self.requirements@.len() && (#[trigger] self.requirements@[i]).id != *req_uuid && opt_is(
                    self.requirements@[i].spec_id,
                    spec_id@,
                ),
    {
        let mut i: usize = 0;
        while i < self.requirements.len()
            invariant
                i <= self.requirements@.len(),
                forall|j: int|
                    0 <= j < i ==> !((#[trigger] self.requirements@[j]).id != *req_uuid && opt_is(
                        self.requirements@[j].spec_id,
                        spec_id@,
                    )),
            decreases self.requirements.len() - i,
        {
            if self.requirements[i].id != *req_uuid && opt_eq_str(&self.requirements[i].spec_id, spec_id) {
                return true;
            }
            i = i + 1;
        }
        false
    }

    /// The identifier a requirement gets when its type changes: the type
    /// prefix replaced by that of the new type, the number kept. None when
    /// there is no current identifier, the new type has no configured prefix,
    /// or the identifier has too few pieces for the format.
    pub fn update_spec_id_for_type_change(&self, current_spec_id: Option<&str>, new_type: &RequirementType) -> (r:
        Option<String>)
        ensures
            current_spec_id is None ==> r is None,
            current_spec_id matches Some(sid) ==> {
                let pieces = count_char(sid@, '-') + 1;
                let tname = lowercase(req_type_text(*new_type));
                let types = self.id_config.requirement_types@;
                &&& (forall|i: int| 0 <= i < types.len() ==> lowercase((#[trigger] types[i]).name@) != tname) ==> r is None
                &&& forall|i: int| #[trigger] first_type_with_name(types, tname, i) ==> match self.id_config.format {
                    IdFormat::SingleLevel => if pieces >= 2 {
                        opt_view(r) == Some(types[i].prefix@ + "-"@ + after_last(sid@, '-'))
                    } else {
                        r is None
                    },
                    IdFormat::TwoLevel => if pieces >= 3 {
                        opt_view(r) == Some(
                            before_first(sid@, '-') + "-"@ + types[i].prefix@ + "-"@ + after_last(sid@, '-'),
                        )
                    } else {
                        r is None
                    },
                }
            },
    {
        let spec_id = match current_spec_id {
            Some(s) => s,
            None => {
                return None;
            },
        };
        let new_prefix = match self.get_type_prefix(new_type) {
            Some(p) => p,
            None => {
                return None;
            },
        };
        proof {
            let tname = lowercase(req_type_text(*new_type));
            assert forall|i: int| #[trigger] first_type_with_name(self.id_config.requirement_types@, tname, i) implies self.id_config.requirement_types@[i].prefix
                == new_prefix by {
                let w = choose|w: int|
                    first_type_with_name(self.id_config.requirement_types@, tname, w) && new_prefix
                        == self.id_config.requirement_types@[w].prefix;
                if w < i {
                    assert(lowercase(self.id_config.requirement_types@[w].name@) != tname);
                } else if i < w {
                    assert(lowercase(self.id_config.requirement_types@[i].name@) != tname);
                }
            }
        }
        let dashes = count_occurrences(spec_id, '-');
        let number = split_last(spec_id, '-');
        match self.id_config.format {
            IdFormat::SingleLevel => {
                if dashes >= 1 {
                    let mut r = new_prefix;
                    r.append("-");
                    r.append(number.as_str());
                    Some(r)
                } else {
                    None
                }
            },
            IdFormat::TwoLevel => {
                if dashes >= 2 {
                    let mut r = split_first(spec_id, '-');
                    r.append("-");
                    r.append(new_prefix.as_str());
                    r.append("-");
                    r.append(number.as_str());
                    Some(r)
                } else {
                    None
                }
            },
        }
    }

    /// The largest number of digits in use in the last pieces of readable
    /// identifiers.
    pub fn get_max_digits_in_use(&self) -> (r: u8)
        ensures
            r as nat == max_digits(self.requirements@),
    {
        let mut m: u8 = 0;
        let mut i: usize = 0;
        while i < self.requirements.len()
            invariant
                i <= self.requirements@.len(),
                m as nat == max_digits(self.requirements@.take(i as int)),
            decreases self.requirements.len() - i,
        {
            proof {
                assert(self.requirements@.take(i as int + 1) =~= self.requirements@.take(i as int).push(self.requirements@[i as int]));
                lemma_max_digits_push(self.requirements@.take(i as int), self.requirements@[i as int]);
            }
            match &self.requirements[i].spec_id {
                Some(id) => {
                    let last = split_last(id.as_str(), '-');
                    if is_all_digits(last.as_str()) {
                        let len = last.as_str().unicode_len();
                        let d: u8 = (len % 256) as u8;
                        if d > m {
                            m = d;
                        }
                    }
                },
                None => {},
            }
            i = i + 1;
        }
        proof {
            assert(self.requirements@.take(self.requirements@.len() as int) =~= self.requirements@);
        }
        m
    }

    /// The number of requirements with a readable identifier.
    pub fn count_spec_ids(&self) -> (r: usize)
        ensures
            r as nat == count_with_spec_id(self.requirements@),
    {
        let mut c: usize = 0;
        let mut i: usize = 0;
        while i < self.requirements.len()
            invariant
                i <= self.requirements@.len(),
                c as nat == count_with_spec_id(self.requirements@.take(i as int)),
                c <= i,
            decreases self.requirements.len() - i,
        {
            proof {
                assert(self.requirements@.take(i as int + 1) =~= self.requirements@.take(i as int).push(self.requirements@[i as int]));
                lemma_count_with_push(self.requirements@.take(i as int), self.requirements@[i as int]);
            }
            if self.requirements[i].spec_id.is_some() {
                c = c + 1;
            }
            i = i + 1;
        }
        proof {
            assert(self.requirements@.take(self.requirements@.len() as int) =~= self.requirements@);
        }
        c
    }

    /// Renumbers every requirement under the current configuration: the
    /// counters restart, and in order each requirement gets the identifier
    /// from its prefix override, or else from the prefix of the first feature
    /// whose name occurs in its feature and the code of its type.
    pub fn migrate_to_new_id_format(&mut self)
        requires
            old(self).requirements@.len() < u32::MAX - 2,
        ensures
            ({
                let (ids, st) = migrated_ids(
                    old(self).requirements@,
                    old(self).features@,
                    fresh_numbering(),
                    old(self).id_config.format,
                    old(self).id_config.numbering,
                    old(self).id_config.digits,
                );
                &&& final(self).requirements@.len() == old(self).requirements@.len()
                &&& forall|k: int|
                    0 <= k < old(self).requirements@.len() ==> renumbered(
                        old(self).requirements@[k],
                        #[trigger] final(self).requirements@[k],
                        ids[k],
                    )
                &&& numbering_of(*final(self)) == st
            }),
            *final(self) == (RequirementsStore {
                requirements: final(self).requirements,
                prefix_counters: final(self).prefix_counters,
                next_spec_number: final(self).next_spec_number,
                ..*old(self)
            }),
    {
        self.renumber_all();
    }

    fn renumber_all(&mut self)
        requires
            old(self).requirements@.len() < u32::MAX - 2,
        ensures
            ({
                let (ids, st) = migrated_ids(
                    old(self).requirements@,
                    old(self).features@,
                    fresh_numbering(),
                    old(self).id_config.format,
                    old(self).id_config.numbering,
                    old(self).id_config.digits,
                );
                &&& final(self).requirements@.len() == old(self).requirements@.len()
                &&& forall|k: int|
                    0 <= k < old(self).requirements@.len() ==> renumbered(
                        old(self).requirements@[k],
                        #[trigger] final(self).requirements@[k],
                        ids[k],
                    )
                &&& numbering_of(*final(self)) == st
            }),
            *final(self) == (RequirementsStore {
                requirements: final(self).requirements,
                prefix_counters: final(self).prefix_counters,
                next_spec_number: final(self).next_spec_number,
                ..*old(self)
            }),
    {
        self.next_spec_number = 1;
        self.prefix_counters = Vec::new();
        proof {
            assert(counter_map(self.prefix_counters@) =~= Map::<Seq<char>, nat>::empty());
        }
        let ghost orig = self.requirements@;
        let ghost features = self.features@;
        let ghost fmt = self.id_config.format;
        let ghost num = self.id_config.numbering;
        let ghost digits = self.id_config.digits;
        let mut i: usize = 0;
        while i < self.requirements.len()
            invariant
                i <= self.requirements@.len(),
                self.requirements@.len() == orig.len(),
                orig.len() < u32::MAX - 2,
                orig == old(self).requirements@,
                features == self.features@,
                fmt == self.id_config.format,
                num == self.id_config.numbering,
                digits == self.id_config.digits,
                numbering_of(*self) == migrated_ids(orig.take(i as int), features, fresh_numbering(), fmt, num, digits).1,
                self.next_spec_number <= i + 1,
                counters_at_most(self.prefix_counters@, (i + 1) as nat),
                forall|k: int| i <= k < orig.len() ==> #[trigger] self.requirements@[k] == orig[k],
                forall|k: int|
                    0 <= k < i ==> renumbered(
                        orig[k],
                        #[trigger] self.requirements@[k],
                        migrated_ids(orig.take(i as int), features, fresh_numbering(), fmt, num, digits).0[k],
                    ),
                migrated_ids(orig.take(i as int), features, fresh_numbering(), fmt, num, digits).0.len() == i,
                *self == (RequirementsStore {
                    requirements: self.requirements,
                    prefix_counters: self.prefix_counters,
                    next_spec_number: self.next_spec_number,
                    ..*old(self)
                }),
            decreases self.requirements.len() - i,
        {
            let ghost pre = migrated_ids(orig.take(i as int), features, fresh_numbering(), fmt, num, digits);
            proof {
                assert(orig.take(i as int + 1).drop_last() =~= orig.take(i as int));
                assert(orig.take(i as int + 1).last() == orig[i as int]);
            }
            let over = crate::text::clone_opt(&self.requirements[i].prefix_override);
            let new_id = match over {
                Some(o) => self.generate_requirement_id_with_override(o.as_str()),
                None => {
                    let fp = feature_prefix_lookup(&self.features, self.requirements[i].feature.as_str());
                    let tp = type_code_text(self.requirements[i].req_type);
                    let fps: Option<&str> = match &fp {
                        Some(x) => Some(x.as_str()),
                        None => None,
                    };
                    self.generate_requirement_id(fps, Some(tp.as_str()))
                },
            };
            self.requirements[i].spec_id = Some(new_id);
            proof {
                let post = migrated_ids(orig.take(i as int + 1), features, fresh_numbering(), fmt, num, digits);
                assert(post.0 == pre.0.push(new_id@));
                assert forall|k: int| 0 <= k < i + 1 implies renumbered(orig[k], #[trigger] self.requirements@[k], post.0[k]) by {
                    if k < i {
                        assert(post.0[k] == pre.0[k]);
                    }
                }
            }
            i = i + 1;
        }
        proof {
            assert(orig.take(orig.len() as int) =~= orig);
        }
    }

    /// Switches to a new identifier configuration and renumbers every
    /// requirement under it, as `migrate_to_new_id_format` does; returns the
    /// number of requirements renumbered.
    pub fn migrate_ids_to_config(&mut self, new_format: IdFormat, new_numbering: NumberingStrategy, new_digits: u8) -> (r:
        usize)
        requires
            old(self).requirements@.len() < u32::MAX - 2,
        ensures
            r == old(self).requirements@.len(),
            final(self).id_config.format == new_format,
            final(self).id_config.numbering == new_numbering,
            final(self).id_config.digits == new_digits,
            final(self).id_config.requirement_types == old(self).id_config.requirement_types,
            ({
                let (ids, st) = migrated_ids(
                    old(self).requirements@,
                    old(self).features@,
                    fresh_numbering(),
                    new_format,
                    new_numbering,
                    new_digits,
                );
                &&& final(self).requirements@.len() == old(self).requirements@.len()
                &&& forall|k: int|
                    0 <= k < old(self).requirements@.len() ==> renumbered(
                        old(self).requirements@[k],
                        #[trigger] final(self).requirements@[k],
                        ids[k],
                    )
                &&& numbering_of(*final(self)) == st
            }),
            *final(self) == (RequirementsStore {
                requirements: final(self).requirements,
                prefix_counters: final(self).prefix_counters,
                next_spec_number: final(self).next_spec_number,
                id_config: final(self).id_config,
                ..*old(self)
            }),
    {
        self.id_config.format = new_format;
        self.id_config.numbering = new_numbering;
        self.id_config.digits = new_digits;
        self.renumber_all();
        self.requirements.len()
    }
}


/// The message refusing to reduce the digits to `new_digits` below the `max`
/// digits in use.
pub open spec fn digits_error_text(new_digits: nat, max: nat) -> Seq<char> {
    "Cannot reduce digits to "@ + decimal(new_digits) + " - existing requirements use up to "@ + decimal(max)
        + " digits"@
}

/// The message refusing a format change under two non-global numberings.
pub open spec fn format_error_text() -> Seq<char> {
    "Format changes require Global numbering strategy. Please switch to Global numbering first."@
}

/// The warning that `n` identifiers will take the new format.
pub open spec fn format_warning_text(n: nat) -> Seq<char> {
    decimal(n) + " requirement(s) will have their IDs updated to the new format."@
}

/// The warning that `n` identifiers will have their numbers reformatted.
pub open spec fn digits_warning_text(n: nat) -> Seq<char> {
    decimal(n) + " requirement(s) will have their ID numbers reformatted."@
}

fn text_then(n: usize, tail: &str) -> (r: String)
    ensures
        r@ == decimal(n as nat) + tail@,
{
    let mut r = decimal_string(n as u64);
    r.append(tail);
    r
}

impl RequirementsStore {
    /// Checks a proposed identifier configuration against the identifiers in
    /// use: an unchanged configuration has nothing to migrate; fewer digits
    /// than in use, or a format change where neither the current nor the new
    /// numbering is global, are refused; otherwise the change is valid, and
    /// counts the requirements with an identifier, with a warning when there
    /// are some and the format or the digits change.
    pub fn validate_id_config_change(
        &self,
        new_format: &IdFormat,
        new_numbering: &NumberingStrategy,
        new_digits: u8,
    ) -> (r: IdConfigValidation)
        ensures
            ({
                let cfg = self.id_config;
                let format_changed = cfg.format != *new_format;
                let numbering_changed = cfg.numbering != *new_numbering;
                let digits_changed = cfg.digits != new_digits;
                let max = max_digits(self.requirements@);
                let n = count_with_spec_id(self.requirements@);
                if !format_changed && !numbering_changed && !digits_changed {
                    r == IdConfigValidation {
                        valid: true,
                        error: None,
                        warning: None,
                        can_migrate: false,
                        affected_count: 0,
                    }
                } else if new_digits < max {
                    &&& !r.valid
                    &&& !r.can_migrate
                    &&& r.error is Some && r.error->0@ == digits_error_text(new_digits as nat, max)
                    &&& r.warning is None
                    &&& r.affected_count == 0
                } else if format_changed && cfg.numbering != NumberingStrategy::Global && *new_numbering
                    != NumberingStrategy::Global {
                    &&& !r.valid
                    &&& !r.can_migrate
                    &&& r.error is Some && r.error->0@ == format_error_text()
                    &&& r.warning is None
                    &&& r.affected_count == 0
                } else {
                    &&& r.valid
                    &&& r.can_migrate
                    &&& r.error is None
                    &&& r.affected_count as nat == n
                    &&& if n > 0 && format_changed {
                        r.warning is Some && r.warning->0@ == format_warning_text(n)
                    } else if n > 0 && digits_changed {
                        r.warning is Some && r.warning->0@ == digits_warning_text(n)
                    } else {
                        r.warning is None
                    }
                }
            }),
    {
        let format_changed = self.id_config.format != *new_format;
        let numbering_changed = self.id_config.numbering != *new_numbering;
        let digits_changed = self.id_config.digits != new_digits;
        if !format_changed && !numbering_changed && !digits_changed {
            return IdConfigValidation { valid: true, error: None, warning: None, can_migrate: false, affected_count: 0 };
        }
        let max = self.get_max_digits_in_use();
        if new_digits < max {
            let mut msg = owned("Cannot reduce digits to ");
            let a = decimal_string(new_digits as u64);
            msg.append(a.as_str());
            msg.append(" - existing requirements use up to ");
            let b = decimal_string(max as u64);
            msg.append(b.as_str());
            msg.append(" digits");
            return IdConfigValidation {
                valid: false,
                error: Some(msg),
                warning: None,
                can_migrate: false,
                affected_count: 0,
            };
        }
        if format_changed {
            if self.id_config.numbering != NumberingStrategy::Global && *new_numbering != NumberingStrategy::Global {
                return IdConfigValidation {
                    valid: false,
                    error: Some(
                        owned("Format changes require Global numbering strategy. Please switch to Global numbering first."),
                    ),
                    warning: None,
                    can_migrate: false,
                    affected_count: 0,
                };
            }
            let n = self.count_spec_ids();
            let warning = if n > 0 {
                Some(text_then(n, " requirement(s) will have their IDs updated to the new format."))
            } else {
                None
            };
            IdConfigValidation { valid: true, error: None, warning, can_migrate: true, affected_count: n }
        } else {
            let n = self.count_spec_ids();
            let warning = if digits_changed && n > 0 {
                Some(text_then(n, " requirement(s) will have their ID numbers reformatted."))
            } else {
                None
            };
            IdConfigValidation { valid: true, error: None, warning, can_migrate: true, affected_count: n }
        }
    }
}

proof fn lemma_joined_suffix_differs(p: Seq<char>, x: Seq<char>, y: Seq<char>)
    requires
        x != y,
    ensures
        p + x != p + y,
{
    if p + x == p + y {
        assert((p + x).skip(p.len() as int) =~= x);
        assert((p + y).skip(p.len() as int) =~= y);
    }
}

/// Generating twice from the same prefixes never gives the same identifier:
/// the counter drawn from has moved on in between.
pub proof fn lemma_generate_twice_differs(
    st: Numbering,
    format: IdFormat,
    numbering: NumberingStrategy,
    digits: u8,
    fp: Option<Seq<char>>,
    tp: Option<Seq<char>>,
)
    ensures
        generate(st, format, numbering, digits, fp, tp).0 != generate(
            generate(st, format, numbering, digits, fp, tp).1,
            format,
            numbering,
            digits,
            fp,
            tp,
        ).0,
{
    let key = counter_key(format, numbering, fp, tp);
    let (n1, st1) = draw(st, key);
    let (n2, st2) = draw(st1, key);
    assert(n2 == n1 + 1);
    lemma_padded_decimal_injective(n1, n2, digits as nat);
    let (x, y) = (zero_pad(decimal(n1), digits as nat), zero_pad(decimal(n2), digits as nat));
    match format {
        IdFormat::SingleLevel => {
            lemma_joined_suffix_differs(single_prefix(fp, tp) + "-"@, x, y);
        },
        IdFormat::TwoLevel => {
            lemma_joined_suffix_differs(upper_or(fp, "GEN"@) + "-"@ + upper_or(tp, "REQ"@) + "-"@, x, y);
        },
    }
}


/// The example identifiers shown for an identifier format with `digits`
/// digits: three numbered 1 to 3.
pub open spec fn example_ids(format: IdFormat, digits: nat) -> Seq<Seq<char>> {
    match format {
        IdFormat::SingleLevel => seq![
            "AUTH-"@ + zero_pad(decimal(1), digits),
            "FR-"@ + zero_pad(decimal(2), digits),
            "PAY-"@ + zero_pad(decimal(3), digits),
        ],
        IdFormat::TwoLevel => seq![
            "AUTH-FR-"@ + zero_pad(decimal(1), digits),
            "AUTH-NFR-"@ + zero_pad(decimal(2), digits),
            "PAY-FR-"@ + zero_pad(decimal(3), digits),
        ],
    }
}

/// The example identifiers for an identifier format with `digits` digits.
pub fn example_id_texts(format: IdFormat, digits: u8) -> (r: Vec<String>)
    ensures
        views(r@) == example_ids(format, digits as nat),
{
    let mut r: Vec<String> = Vec::new();
    match format {
        IdFormat::SingleLevel => {
            r.push(prefixed_number("AUTH", 1, digits));
            r.push(prefixed_number("FR", 2, digits));
            r.push(prefixed_number("PAY", 3, digits));
        },
        IdFormat::TwoLevel => {
            r.push(prefixed_number("AUTH-FR", 1, digits));
            r.push(prefixed_number("AUTH-NFR", 2, digits));
            r.push(prefixed_number("PAY-FR", 3, digits));
        },
    }
    proof {
        reveal_strlit("AUTH");
        reveal_strlit("FR");
        reveal_strlit("PAY");
        reveal_strlit("AUTH-FR");
        reveal_strlit("AUTH-NFR");
        reveal_strlit("PAY-FR");
        reveal_strlit("-");
        reveal_strlit("AUTH-");
        reveal_strlit("FR-");
        reveal_strlit("PAY-");
        reveal_strlit("AUTH-FR-");
        reveal_strlit("AUTH-NFR-");
        reveal_strlit("PAY-FR-");
        let e = example_ids(format, digits as nat);
        assert forall|i: int| 0 <= i < 3 implies #[trigger] views(r@)[i] =~= e[i] by {
            let z = zero_pad(decimal((i + 1) as nat), digits as nat);
            match format {
                IdFormat::SingleLevel => {
                    assert("AUTH"@ + "-"@ + z =~= "AUTH-"@ + z);
                    assert("FR"@ + "-"@ + z =~= "FR-"@ + z);
                    assert("PAY"@ + "-"@ + z =~= "PAY-"@ + z);
                },
                IdFormat::TwoLevel => {
                    assert("AUTH-FR"@ + "-"@ + z =~= "AUTH-FR-"@ + z);
                    assert("AUTH-NFR"@ + "-"@ + z =~= "AUTH-NFR-"@ + z);
                    assert("PAY-FR"@ + "-"@ + z =~= "PAY-FR-"@ + z);
                },
            }
        }
        assert(views(r@) =~= e);
    }
    r
}

} // verus!
