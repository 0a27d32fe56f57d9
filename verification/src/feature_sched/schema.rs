//! The feature schema and the features that a mask leaves active.

use vstd::prelude::*;

use super::metadata::{specs, FeatureSchemaFile, FeatureSpec, FeatureSpecView, SchemaView};
use crate::text::{decimal, decimal_text, texts};

verus! {

/// The version of the schema that is understood.
pub const SCHEMA_VERSION: u64 = 3;

/// What is wrong with a schema.
pub ghost enum SchemaFault {
    /// It has this version, not the one that is understood.
    Version(u64),
    /// It lists no feature.
    Empty,
    /// The feature at this place repeats the id of an earlier one.
    DuplicateId(int),
    /// The feature at this place repeats the name of an earlier one.
    DuplicateName(int),
    /// Of the feature at this place, the alias at that place is the name of another feature.
    AliasCollision(int, int),
}

/// Does the feature at `i` repeat the id of an earlier one?
pub open spec fn id_repeats(fs: Seq<FeatureSpecView>, i: int) -> bool {
    exists|j: int| 0 <= j < i && (#[trigger] fs[j]).id == fs[i].id
}

/// Does the feature at `i` repeat the name of an earlier one?
pub open spec fn name_repeats(fs: Seq<FeatureSpecView>, i: int) -> bool {
    exists|j: int| 0 <= j < i && (#[trigger] fs[j]).name == fs[i].name
}

/// Does the feature at `i` repeat the id or the name of an earlier one?
pub open spec fn repeats(fs: Seq<FeatureSpecView>, i: int) -> bool {
    id_repeats(fs, i) || name_repeats(fs, i)
}

/// Is `name` the canonical name of a feature?
pub open spec fn canonical(fs: Seq<FeatureSpecView>, name: Seq<char>) -> bool {
    exists|j: int| 0 <= j < fs.len() && (#[trigger] fs[j]).name == name
}

/// Is the text the canonical name of a feature, though not the name of this one?
pub open spec fn foreign_name(fs: Seq<FeatureSpecView>, own: FeatureSpecView, alias: Seq<char>) -> bool {
    canonical(fs, alias) && alias != own.name
}

/// The aliases of a feature.
pub open spec fn aliases_of(f: FeatureSpecView) -> Seq<Seq<char>> {
    match f.aliases {
        Some(a) => a,
        None => Seq::empty(),
    }
}

/// The first repeated id or name from place `i` on; at one place the id comes first.
pub open spec fn first_repeat(fs: Seq<FeatureSpecView>, i: int) -> Option<SchemaFault>
    decreases fs.len() - i,
{
    if i >= fs.len() {
        None
    } else if id_repeats(fs, i) {
        Some(SchemaFault::DuplicateId(i))
    } else if name_repeats(fs, i) {
        Some(SchemaFault::DuplicateName(i))
    } else {
        first_repeat(fs, i + 1)
    }
}

/// The first alias of the feature at `i`, from place `k` on, that is the name of another feature.
pub open spec fn first_foreign(fs: Seq<FeatureSpecView>, i: int, k: int) -> Option<int>
    decreases aliases_of(fs[i]).len() - k,
{
    if k >= aliases_of(fs[i]).len() {
        None
    } else if foreign_name(fs, fs[i], aliases_of(fs[i])[k]) {
        Some(k)
    } else {
        first_foreign(fs, i, k + 1)
    }
}

/// The first alias that collides, from the feature at `i` on.
pub open spec fn first_collision(fs: Seq<FeatureSpecView>, i: int) -> Option<SchemaFault>
    decreases fs.len() - i,
{
    if i >= fs.len() {
        None
    } else {
        match first_foreign(fs, i, 0) {
            Some(k) => Some(SchemaFault::AliasCollision(i, k)),
            None => first_collision(fs, i + 1),
        }
    }
}

/// What is wrong with a schema, if anything: the version is looked at first, then the ids and
/// names, then the aliases.
pub open spec fn schema_fault(s: SchemaView) -> Option<SchemaFault> {
    if s.schema_version != SCHEMA_VERSION {
        Some(SchemaFault::Version(s.schema_version))
    } else if s.features.len() == 0 {
        Some(SchemaFault::Empty)
    } else if first_repeat(s.features, 0) is Some {
        first_repeat(s.features, 0)
    } else {
        first_collision(s.features, 0)
    }
}

/// The words of a schema fault.
pub open spec fn schema_fault_text(s: SchemaView, f: SchemaFault) -> Seq<char> {
    match f {
        SchemaFault::Version(v) => "BOFuzz feature schema error: schema_version must be 3, got "@
            + decimal(v as nat),
        SchemaFault::Empty => "BOFuzz feature schema error: features list is empty"@,
        SchemaFault::DuplicateId(i) => "BOFuzz feature schema error: duplicate feature id '"@
            + s.features[i].id + "'"@,
        SchemaFault::DuplicateName(i) => "BOFuzz feature schema error: duplicate feature name '"@
            + s.features[i].name + "'"@,
        SchemaFault::AliasCollision(i, k) => "BOFuzz feature schema error: alias '"@ + aliases_of(
            s.features[i],
        )[k] + "' for "@ + s.features[i].id + " collides with canonical name"@,
    }
}

/// A schema in which every feature can be told from every other: it has the right version and at
/// least one feature, no two features share an id or a name, and no alias of a feature is the
/// name of another.
pub open spec fn sound_schema(s: SchemaView) -> bool {
    &&& s.schema_version == SCHEMA_VERSION
    &&& s.features.len() > 0
    &&& forall|i: int, j: int|
        0 <= i < j < s.features.len() ==> (#[trigger] s.features[i]).id != (
        #[trigger] s.features[j]).id && s.features[i].name != s.features[j].name
    &&& forall|i: int, k: int, j: int|
        #![trigger aliases_of(s.features[i])[k], s.features[j]]
        0 <= i < s.features.len() && 0 <= k < aliases_of(s.features[i]).len() && 0 <= j
            < s.features.len() && aliases_of(s.features[i])[k] == s.features[j].name ==> i == j
}

/// No repeat is found exactly where none is.
proof fn no_repeat(fs: Seq<FeatureSpecView>, i: int)
    requires
        0 <= i,
    ensures
        first_repeat(fs, i) is None <==> forall|k: int|
            i <= k < fs.len() ==> !#[trigger] repeats(fs, k),
    decreases fs.len() - i,
{
    if i < fs.len() {
        no_repeat(fs, i + 1);
        assert(repeats(fs, i) == (id_repeats(fs, i) || name_repeats(fs, i)));
    }
}

/// No foreign alias is found exactly where none is.
proof fn no_foreign(fs: Seq<FeatureSpecView>, i: int, k: int)
    requires
        0 <= k,
    ensures
        first_foreign(fs, i, k) is None <==> forall|m: int|
            k <= m < aliases_of(fs[i]).len() ==> !foreign_name(
                fs,
                fs[i],
                #[trigger] aliases_of(fs[i])[m],
            ),
        first_foreign(fs, i, k) matches Some(m) ==> k <= m < aliases_of(fs[i]).len(),
    decreases aliases_of(fs[i]).len() - k,
{
    if k < aliases_of(fs[i]).len() {
        no_foreign(fs, i, k + 1);
    }
}

/// No collision is found exactly where none is.
proof fn no_collision(fs: Seq<FeatureSpecView>, i: int)
    requires
        0 <= i,
    ensures
        first_collision(fs, i) is None <==> forall|k: int|
            i <= k < fs.len() ==> #[trigger] first_foreign(fs, k, 0) is None,
    decreases fs.len() - i,
{
    if i < fs.len() {
        no_collision(fs, i + 1);
    }
}

/// A schema without a fault is one in which every feature can be told from every other, and the
/// other way round.
pub proof fn faultless_is_sound(s: SchemaView)
    ensures
        schema_fault(s) is None <==> sound_schema(s),
{
    let fs = s.features;
    no_repeat(fs, 0);
    no_collision(fs, 0);
    assert forall|i: int| 0 <= i < fs.len() implies (first_foreign(fs, i, 0) is None <==> forall|
        m: int,
    |
        0 <= m < aliases_of(fs[i]).len() ==> !foreign_name(
            fs,
            fs[i],
            #[trigger] aliases_of(fs[i])[m],
        )) by {
        no_foreign(fs, i, 0);
    }
    if sound_schema(s) {
        assert forall|k: int| 0 <= k < fs.len() implies !#[trigger] repeats(fs, k) by {}
        assert forall|k: int| 0 <= k < fs.len() implies #[trigger] first_foreign(
            fs,
            k,
            0,
        ) is None by {
            assert forall|m: int| 0 <= m < aliases_of(fs[k]).len() implies !foreign_name(
                fs,
                fs[k],
                #[trigger] aliases_of(fs[k])[m],
            ) by {
                if canonical(fs, aliases_of(fs[k])[m]) {
                    let j = choose|j: int|
                        0 <= j < fs.len() && (#[trigger] fs[j]).name == aliases_of(fs[k])[m];
                    assert(j == k);
                }
            }
            no_foreign(fs, k, 0);
        }
    }
    if schema_fault(s) is None {
        assert forall|i: int, j: int| 0 <= i < j < fs.len() implies (#[trigger] fs[i]).id != (
        #[trigger] fs[j]).id && fs[i].name != fs[j].name by {
            assert(!repeats(fs, j));
        }
        assert forall|i: int, k: int, j: int|
            #![trigger aliases_of(fs[i])[k], fs[j]]
            0 <= i < fs.len() && 0 <= k < aliases_of(fs[i]).len() && 0 <= j < fs.len()
                && aliases_of(fs[i])[k] == fs[j].name implies i == j by {
            assert(first_foreign(fs, i, 0) is None);
            no_foreign(fs, i, 0);
            assert(!foreign_name(fs, fs[i], aliases_of(fs[i])[k]));
            assert(canonical(fs, aliases_of(fs[i])[k]));
            assert(fs[i].name == fs[j].name);
            if i < j {
                assert(!repeats(fs, j));
            } else if j < i {
                assert(!repeats(fs, i));
            }
        }
    }
}

/// Is this the id of one of the first `n` features?
fn id_among(features: &Vec<FeatureSpec>, n: usize, id: &String) -> (r: bool)
    requires
        n <= features@.len(),
    ensures
        r == exists|j: int| 0 <= j < n && (#[trigger] specs(features@)[j]).id == id@,
{
    let ghost fs = specs(features@);
    let mut j: usize = 0;
    while j < n
        invariant
            j <= n <= features@.len(),
            fs == specs(features@),
            forall|k: int| 0 <= k < j ==> (#[trigger] fs[k]).id != id@,
        decreases n - j,
    {
        assert(fs[j as int].id == features@[j as int].id@);
        if features[j].id == *id {
            return true;
        }
        j = j + 1;
    }
    false
}

/// Is this the name of one of the first `n` features?
fn name_among(features: &Vec<FeatureSpec>, n: usize, name: &String) -> (r: bool)
    requires
        n <= features@.len(),
    ensures
        r == exists|j: int| 0 <= j < n && (#[trigger] specs(features@)[j]).name == name@,
{
    let ghost fs = specs(features@);
    let mut j: usize = 0;
    while j < n
        invariant
            j <= n <= features@.len(),
            fs == specs(features@),
            forall|k: int| 0 <= k < j ==> (#[trigger] fs[k]).name != name@,
        decreases n - j,
    {
        assert(fs[j as int].name == features@[j as int].name@);
        if features[j].name == *name {
            return true;
        }
        j = j + 1;
    }
    false
}

/// Checks a schema that has been read: its version, and that its features can be told apart.
pub fn validate_schema(schema: &FeatureSchemaFile) -> (r: Result<(), String>)
    ensures
        match r {
            Ok(_) => schema_fault(schema@) is None,
            Err(e) => schema_fault(schema@) is Some && e@ == schema_fault_text(
                schema@,
                schema_fault(schema@)->0,
            ),
        },
        r is Ok <==> sound_schema(schema@),
{
    let ghost fs = schema@.features;
    proof {
        faultless_is_sound(schema@);
    }
    if schema.schema_version != SCHEMA_VERSION {
        let mut e: String =
            "BOFuzz feature schema error: schema_version must be 3, got ".to_owned();
        e.append(decimal_text(schema.schema_version).as_str());
        return Err(e);
    }
    let n: usize = schema.features.len();
    if n == 0 {
        return Err("BOFuzz feature schema error: features list is empty".to_owned());
    }
    let mut i: usize = 0;
    while i < n
        invariant
            i <= n,
            n == schema.features@.len(),
            fs == schema@.features,
            schema@.schema_version == SCHEMA_VERSION,
            n > 0,
            first_repeat(fs, i as int) == first_repeat(fs, 0),
        decreases n - i,
    {
        let f: &FeatureSpec = &schema.features[i];
        assert(fs[i as int] == f@);
        if id_among(&schema.features, i, &f.id) {
            let mut e: String = "BOFuzz feature schema error: duplicate feature id '".to_owned();
            e.append(f.id.as_str());
            e.append("'");
            assert(id_repeats(fs, i as int));
            return Err(e);
        }
        if name_among(&schema.features, i, &f.name) {
            let mut e: String = "BOFuzz feature schema error: duplicate feature name '".to_owned();
            e.append(f.name.as_str());
            e.append("'");
            assert(name_repeats(fs, i as int));
            return Err(e);
        }
        assert(!id_repeats(fs, i as int) && !name_repeats(fs, i as int));
        i = i + 1;
    }
    i = 0;
    while i < n
        invariant
            i <= n,
            n == schema.features@.len(),
            fs == schema@.features,
            schema@.schema_version == SCHEMA_VERSION,
            n > 0,
            first_repeat(fs, 0) is None,
            first_collision(fs, i as int) == first_collision(fs, 0),
        decreases n - i,
    {
        let f: &FeatureSpec = &schema.features[i];
        assert(fs[i as int] == f@);
        match &f.aliases {
            Some(aliases) => {
                let mut k: usize = 0;
                assert(aliases_of(fs[i as int]) == texts(aliases@));
                while k < aliases.len()
                    invariant
                        i < n,
                        k <= aliases@.len(),
                        n == schema.features@.len(),
                        fs == schema@.features,
                        schema@.schema_version == SCHEMA_VERSION,
                        n > 0,
                        first_repeat(fs, 0) is None,
                        first_collision(fs, i as int) == first_collision(fs, 0),
                        fs[i as int] == f@,
                        aliases_of(fs[i as int]) == texts(aliases@),
                        first_foreign(fs, i as int, k as int) == first_foreign(fs, i as int, 0),
                    decreases aliases@.len() - k,
                {
                    let alias: &String = &aliases[k];
                    assert(aliases_of(fs[i as int])[k as int] == alias@);
                    if name_among(&schema.features, n, alias) && *alias != f.name {
                        let mut e: String = "BOFuzz feature schema error: alias '".to_owned();
                        e.append(alias.as_str());
                        e.append("' for ");
                        e.append(f.id.as_str());
                        e.append(" collides with canonical name");
                        assert(foreign_name(fs, fs[i as int], alias@));
                        return Err(e);
                    }
                    assert(!foreign_name(fs, fs[i as int], alias@));
                    k = k + 1;
                }
            },
            None => {},
        }
        assert(first_foreign(fs, i as int, 0) is None);
        i = i + 1;
    }
    Ok(())
}

/// The features that a mask keeps, in the order of the schema. Of lists of unequal length only
/// the common part counts.
pub open spec fn active_of(fs: Seq<FeatureSpecView>, mask: Seq<bool>) -> Seq<FeatureSpecView>
    decreases fs.len(),
{
    if fs.len() == 0 || mask.len() == 0 {
        Seq::empty()
    } else {
        let rest = active_of(fs.drop_first(), mask.drop_first());
        if mask[0] {
            seq![fs[0]] + rest
        } else {
            rest
        }
    }
}

/// How many entries of a mask are set.
pub open spec fn set_count(mask: Seq<bool>) -> nat
    decreases mask.len(),
{
    if mask.len() == 0 {
        0
    } else {
        set_count(mask.drop_last()) + if mask.last() {
            1nat
        } else {
            0nat
        }
    }
}

/// One more feature: it is kept exactly where its entry is set.
proof fn active_of_step(fs: Seq<FeatureSpecView>, mask: Seq<bool>, f: FeatureSpecView, m: bool)
    requires
        fs.len() == mask.len(),
    ensures
        active_of(fs.push(f), mask.push(m)) == active_of(fs, mask) + if m {
            seq![f]
        } else {
            Seq::empty()
        },
    decreases fs.len(),
{
    if fs.len() == 0 {
        assert(fs.push(f).drop_first() =~= fs);
        assert(mask.push(m).drop_first() =~= mask);
        assert(active_of(fs, mask) =~= Seq::empty());
        assert(fs.push(f)[0] == f);
        if m {
            assert(active_of(fs.push(f), mask.push(m)) =~= active_of(fs, mask) + seq![f]);
        } else {
            assert(active_of(fs.push(f), mask.push(m)) =~= active_of(fs, mask) + Seq::empty());
        }
    } else {
        active_of_step(fs.drop_first(), mask.drop_first(), f, m);
        assert(fs.push(f).drop_first() =~= fs.drop_first().push(f));
        assert(mask.push(m).drop_first() =~= mask.drop_first().push(m));
        assert(active_of(fs.push(f), mask.push(m)) =~= active_of(fs, mask) + if m {
            seq![f]
        } else {
            Seq::empty()
        });
    }
}

/// What lies beyond the common length of features and mask does not count.
proof fn active_of_common(fs: Seq<FeatureSpecView>, mask: Seq<bool>, n: nat)
    requires
        n <= fs.len(),
        n <= mask.len(),
        n == fs.len() || n == mask.len(),
    ensures
        active_of(fs, mask) == active_of(fs.take(n as int), mask.take(n as int)),
    decreases n,
{
    if n > 0 {
        active_of_common(fs.drop_first(), mask.drop_first(), (n - 1) as nat);
        assert(fs.take(n as int).drop_first() =~= fs.drop_first().take(n - 1));
        assert(mask.take(n as int).drop_first() =~= mask.drop_first().take(n - 1));
    }
}

/// The features that a mask keeps, in the order of the schema.
pub fn compute_active_features(schema: &FeatureSchemaFile, mask: &[bool]) -> (r: Vec<FeatureSpec>)
    ensures
        specs(r@) == active_of(schema@.features, mask@),
{
    let ghost fs = schema@.features;
    let mut r: Vec<FeatureSpec> = Vec::new();
    let mut i: usize = 0;
    assert(specs(r@) =~= active_of(fs.take(0), mask@.take(0)));
    while i < schema.features.len() && i < mask.len()
        invariant
            i <= schema.features@.len(),
            i <= mask@.len(),
            fs == schema@.features,
            specs(r@) == active_of(fs.take(i as int), mask@.take(i as int)),
        decreases schema.features@.len() - i,
    {
        proof {
            active_of_step(
                fs.take(i as int),
                mask@.take(i as int),
                fs[i as int],
                mask@[i as int],
            );
            assert(fs.take(i + 1) =~= fs.take(i as int).push(fs[i as int]));
            assert(mask@.take(i + 1) =~= mask@.take(i as int).push(mask@[i as int]));
        }
        let ghost before = r@;
        if mask[i] {
            r.push(schema.features[i].clone());
            assert(specs(r@) =~= specs(before) + seq![fs[i as int]]);
        } else {
            assert(specs(r@) =~= specs(before) + Seq::<FeatureSpecView>::empty());
        }
        i = i + 1;
    }
    proof {
        active_of_common(fs, mask@, i as nat);
    }
    r
}

/// With one mask entry for each feature, as many features are active as entries are set.
pub proof fn active_count(fs: Seq<FeatureSpecView>, mask: Seq<bool>)
    requires
        fs.len() == mask.len(),
    ensures
        active_of(fs, mask).len() == set_count(mask),
    decreases fs.len(),
{
    if fs.len() > 0 {
        let f = fs.drop_last();
        let m = mask.drop_last();
        active_count(f, m);
        active_of_step(f, m, fs.last(), mask.last());
        assert(fs =~= f.push(fs.last()));
        assert(mask =~= m.push(mask.last()));
    }
}

/// A mask with an entry set counts at least one.
pub proof fn set_count_positive(mask: Seq<bool>)
    requires
        mask.contains(true),
    ensures
        set_count(mask) > 0,
    decreases mask.len(),
{
    let i = choose|i: int| 0 <= i < mask.len() && mask[i];
    if i < mask.len() - 1 {
        assert(mask.drop_last()[i]);
        set_count_positive(mask.drop_last());
    }
}

/// A mask counts as many entries as it has only if all of them are set.
proof fn full_count(mask: Seq<bool>)
    ensures
        set_count(mask) <= mask.len(),
        set_count(mask) == mask.len() ==> forall|i: int| 0 <= i < mask.len() ==> mask[i],
    decreases mask.len(),
{
    if mask.len() > 0 {
        let front = mask.drop_last();
        full_count(front);
        if set_count(mask) == mask.len() {
            assert forall|i: int| 0 <= i < mask.len() implies mask[i] by {
                if i < front.len() {
                    assert(front[i]);
                }
            }
        }
    }
}

/// Every accepted mask leaves at least one feature active. With the mask that enables all of them
/// every feature of the schema is active, and with no other are as many.
pub proof fn masks_leave_features(fs: Seq<FeatureSpecView>, mask: Seq<bool>)
    requires
        mask.len() == fs.len(),
        mask.contains(true),
    ensures
        active_of(fs, mask).len() > 0,
        (forall|i: int| 0 <= i < mask.len() ==> mask[i]) ==> active_of(fs, mask) == fs,
        active_of(fs, mask).len() == fs.len() ==> forall|i: int| 0 <= i < mask.len() ==> mask[i],
    decreases fs.len(),
{
    active_count(fs, mask);
    full_count(mask);
    set_count_positive(mask);
    if forall|i: int| 0 <= i < mask.len() ==> mask[i] {
        all_active(fs, mask);
    }
}

/// With every entry set, every feature is kept.
proof fn all_active(fs: Seq<FeatureSpecView>, mask: Seq<bool>)
    requires
        mask.len() == fs.len(),
        forall|i: int| 0 <= i < mask.len() ==> mask[i],
    ensures
        active_of(fs, mask) == fs,
    decreases fs.len(),
{
    if fs.len() > 0 {
        let m = mask.drop_first();
        assert forall|i: int| 0 <= i < m.len() implies m[i] by {
            assert(mask[i + 1]);
        }
        all_active(fs.drop_first(), m);
        assert(active_of(fs, mask) =~= fs);
    } else {
        assert(active_of(fs, mask) =~= fs);
    }
}

/// The number of entries set in a mask is that of its two parts together, and a single entry counts
/// one where it is set and nothing where it is not.
pub proof fn set_entries_add_up(a: Seq<bool>, b: Seq<bool>)
    ensures
        set_count(a + b) == set_count(a) + set_count(b),
        set_count(seq![true]) == 1,
        set_count(seq![false]) == 0,
        set_count(Seq::<bool>::empty()) == 0,
    decreases b.len(),
{
    reveal_with_fuel(set_count, 2);
    assert(seq![true].drop_last() =~= Seq::<bool>::empty());
    assert(seq![false].drop_last() =~= Seq::<bool>::empty());
    if b.len() == 0 {
        assert(a + b =~= a);
    } else {
        set_entries_add_up(a, b.drop_last());
        assert((a + b).drop_last() =~= a + b.drop_last());
    }
}

/// The features that a mask keeps are those of its entries that are set, in the order of the schema:
/// the feature at a place that is set comes behind as many others as entries are set before it.
pub proof fn active_features_keep_their_order(
    fs: Seq<FeatureSpecView>,
    mask: Seq<bool>,
    z: int,
)
    requires
        fs.len() == mask.len(),
        0 <= z < mask.len(),
        mask[z],
    ensures
        set_count(mask.take(z)) < active_of(fs, mask).len(),
        active_of(fs, mask)[set_count(mask.take(z)) as int] == fs[z],
        active_of(fs, mask).len() == set_count(mask),
    decreases fs.len(),
{
    active_count(fs, mask);
    let f = fs.drop_last();
    let m = mask.drop_last();
    active_of_step(f, m, fs.last(), mask.last());
    assert(fs =~= f.push(fs.last()));
    assert(mask =~= m.push(mask.last()));
    active_count(f, m);
    if z < m.len() {
        active_features_keep_their_order(f, m, z);
        assert(m.take(z) =~= mask.take(z));
    } else {
        assert(m =~= mask.take(z));
    }
}

/// Two features that share an id or a name, an alias that is the name of another feature, a version
/// other than 3 and an empty list are each refused; whatever has none of these is accepted.
pub proof fn schemas_are_told_apart(s: SchemaView)
    ensures
        schema_fault(s) is None <==> s.schema_version == 3 && s.features.len() > 0 && (forall|
            i: int,
            j: int,
        |
            0 <= i < s.features.len() && 0 <= j < s.features.len() && i != j ==> (
            #[trigger] s.features[i]).id != (#[trigger] s.features[j]).id && s.features[i].name
                != s.features[j].name && (s.features[i].aliases is Some
                ==> !s.features[i].aliases->0.contains(s.features[j].name))),
{
    faultless_is_sound(s);
    let fs = s.features;
    if sound_schema(s) {
        assert forall|i: int, j: int|
            0 <= i < fs.len() && 0 <= j < fs.len() && i != j implies (#[trigger] fs[i]).id != (
        #[trigger] fs[j]).id && fs[i].name != fs[j].name && (fs[i].aliases is Some
            ==> !fs[i].aliases->0.contains(fs[j].name)) by {
            if i < j {
                assert(fs[i].id != fs[j].id);
            } else {
                assert(fs[j].id != fs[i].id);
            }
            if fs[i].aliases is Some && fs[i].aliases->0.contains(fs[j].name) {
                let k = fs[i].aliases->0.index_of(fs[j].name);
                assert(aliases_of(fs[i])[k] == fs[j].name);
            }
        }
    }
    if s.schema_version == 3 && fs.len() > 0 && (forall|i: int, j: int|
        0 <= i < fs.len() && 0 <= j < fs.len() && i != j ==> (#[trigger] fs[i]).id != (
        #[trigger] fs[j]).id && fs[i].name != fs[j].name && (fs[i].aliases is Some
            ==> !fs[i].aliases->0.contains(fs[j].name))) {
        assert forall|i: int, k: int, j: int|
            #![trigger aliases_of(fs[i])[k], fs[j]]
            0 <= i < fs.len() && 0 <= k < aliases_of(fs[i]).len() && 0 <= j < fs.len()
                && aliases_of(fs[i])[k] == fs[j].name implies i == j by {
            if i != j {
                assert(fs[i].id != fs[j].id);
                assert(fs[i].aliases->0[k] == fs[j].name);
                assert(fs[i].aliases->0.contains(fs[j].name));
            }
        }
        assert(sound_schema(s));
    }
}

/// What is told of a schema comes first: a wrong version, then an empty list, then the first feature
/// that repeats an id or a name, then the first alias that names another feature.
pub proof fn first_schema_fault(s: SchemaView)
    ensures
        s.schema_version != 3 ==> schema_fault(s) == Some(SchemaFault::Version(s.schema_version)),
        s.schema_version == 3 && s.features.len() == 0 ==> schema_fault(s) == Some(
            SchemaFault::Empty,
        ),
        schema_fault(s) matches Some(SchemaFault::DuplicateId(i)) ==> 0 <= i < s.features.len()
            && (exists|j: int| 0 <= j < i && (#[trigger] s.features[j]).id == s.features[i].id)
            && (forall|j: int, k: int|
            0 <= j < k < i ==> (#[trigger] s.features[j]).id != (#[trigger] s.features[k]).id
                && s.features[j].name != s.features[k].name),
        schema_fault(s) matches Some(SchemaFault::DuplicateName(i)) ==> 0 <= i < s.features.len()
            && (exists|j: int| 0 <= j < i && (#[trigger] s.features[j]).name == s.features[i].name)
            && (forall|j: int, k: int|
            0 <= j < k <= i ==> (#[trigger] s.features[j]).id != (#[trigger] s.features[k]).id)
            && (forall|j: int, k: int|
            0 <= j < k < i ==> (#[trigger] s.features[j]).name != (#[trigger] s.features[k]).name),
        schema_fault(s) matches Some(SchemaFault::AliasCollision(i, k)) ==> 0 <= i
            < s.features.len() && s.features[i].aliases is Some && 0 <= k
            < s.features[i].aliases->0.len() && s.features[i].aliases->0[k] != s.features[i].name
            && (exists|j: int|
            0 <= j < s.features.len() && (#[trigger] s.features[j]).name
                == s.features[i].aliases->0[k]) && (forall|a: int, b: int|
            0 <= a < b < s.features.len() ==> (#[trigger] s.features[a]).id != (
            #[trigger] s.features[b]).id && s.features[a].name != s.features[b].name),
{
    let fs = s.features;
    first_repeat_is_first(fs, 0);
    no_repeat(fs, 0);
    if first_repeat(fs, 0) is None {
        assert forall|a: int, b: int| 0 <= a < b < fs.len() implies (#[trigger] fs[a]).id != (
        #[trigger] fs[b]).id && fs[a].name != fs[b].name by {
            assert(!repeats(fs, b));
        }
        first_collision_collides(fs, 0);
    }
}

/// Up to the first repeat nothing repeats.
proof fn first_repeat_is_first(fs: Seq<FeatureSpecView>, i: int)
    requires
        0 <= i,
        forall|j: int, k: int|
            0 <= j < k < i && k < fs.len() ==> (#[trigger] fs[j]).id != (#[trigger] fs[k]).id
                && fs[j].name != fs[k].name,
    ensures
        match first_repeat(fs, i) {
            Some(SchemaFault::DuplicateId(p)) => i <= p < fs.len() && id_repeats(fs, p) && (forall|
                j: int,
                k: int,
            |
                0 <= j < k < p ==> (#[trigger] fs[j]).id != (#[trigger] fs[k]).id && fs[j].name
                    != fs[k].name),
            Some(SchemaFault::DuplicateName(p)) => i <= p < fs.len() && name_repeats(fs, p)
                && !id_repeats(fs, p) && (forall|j: int, k: int|
                0 <= j < k < p ==> (#[trigger] fs[j]).id != (#[trigger] fs[k]).id && fs[j].name
                    != fs[k].name),
            Some(_) => false,
            None => true,
        },
    decreases fs.len() - i,
{
    if i < fs.len() && !id_repeats(fs, i) && !name_repeats(fs, i) {
        first_repeat_is_first(fs, i + 1);
    }
}

/// The collision that is found is one.
proof fn first_collision_collides(fs: Seq<FeatureSpecView>, i: int)
    requires
        0 <= i,
    ensures
        match first_collision(fs, i) {
            Some(SchemaFault::AliasCollision(p, k)) => i <= p < fs.len() && 0 <= k < aliases_of(
                fs[p],
            ).len() && foreign_name(fs, fs[p], aliases_of(fs[p])[k]),
            Some(_) => false,
            None => true,
        },
    decreases fs.len() - i,
{
    if i < fs.len() {
        first_foreign_is_foreign(fs, i, 0);
        first_collision_collides(fs, i + 1);
    }
}

/// The foreign alias that is found is one.
proof fn first_foreign_is_foreign(fs: Seq<FeatureSpecView>, i: int, k: int)
    requires
        0 <= k,
    ensures
        first_foreign(fs, i, k) matches Some(m) ==> k <= m < aliases_of(fs[i]).len()
            && foreign_name(fs, fs[i], aliases_of(fs[i])[m]),
    decreases aliases_of(fs[i]).len() - k,
{
    if k < aliases_of(fs[i]).len() {
        first_foreign_is_foreign(fs, i, k + 1);
    }
}

/// A schema is accepted exactly where its version is 3, it lists a feature, no two features share an id
/// or a name, and no alias of a feature is the name of another.
pub proof fn only_sound_schemas_are_accepted(
    schema: FeatureSchemaFile,
    r: Result<(), String>,
    i: int,
    j: int,
)
    requires
        call_ensures(validate_schema, (&schema,), r),
    ensures
        r is Ok ==> schema.schema_version == 3 && schema.features@.len() > 0,
        r is Ok && 0 <= i < schema.features@.len() && 0 <= j < schema.features@.len() && i != j
            ==> schema@.features[i].id != schema@.features[j].id && schema@.features[i].name
            != schema@.features[j].name && (schema@.features[i].aliases is Some
            ==> !schema@.features[i].aliases->0.contains(schema@.features[j].name)),
        schema.schema_version == 3 && schema.features@.len() == 1 ==> r is Ok,
{
    schemas_are_told_apart(schema@);
    if 0 <= i < schema.features@.len() && 0 <= j < schema.features@.len() && i != j && r is Ok {
        assert(schema@.features[i].id != schema@.features[j].id);
    }
}

/// The features that are computed to be active are those of the set entries, in the order of the schema.
pub proof fn computed_features_keep_their_order(
    schema: FeatureSchemaFile,
    mask: &[bool],
    r: Vec<FeatureSpec>,
    z: int,
)
    requires
        call_ensures(compute_active_features, (&schema, mask), r),
        mask@.len() == schema.features@.len(),
        0 <= z < mask@.len(),
        mask@[z],
    ensures
        r@.len() == set_count(mask@),
        set_count(mask@.take(z)) < r@.len(),
        r@[set_count(mask@.take(z)) as int]@ == schema.features@[z]@,
{
    active_features_keep_their_order(schema@.features, mask@, z);
    assert(specs(r@)[set_count(mask@.take(z)) as int] == r@[set_count(
        mask@.take(z),
    ) as int]@);
}

} // verus!
